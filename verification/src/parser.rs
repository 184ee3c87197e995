//! Grammar primitives of the markup dialect: text spans, comments, ligature
//! tokens and paragraph contents, as total functions over character vectors
//! with exact contracts.

use vstd::prelude::*;
use vstd::string::StringExecFns;
use crate::textutil::chars_to_string;

verus! {

/// Characters that end a text span: markup delimiters, ligature starters and
/// line endings.
pub open spec fn is_reserved(c: char) -> bool {
    c == '\\' || c == '{' || c == '}' || c == '%' || c == '`' || c == '\'' || c == '-' || c == '$'
        || c == '\r' || c == '\n' || c == '~'
}

/// Executable form of [`is_reserved`].
pub fn reserved_char(c: char) -> (r: bool)
    ensures
        r == is_reserved(c),
{
    c == '\\' || c == '{' || c == '}' || c == '%' || c == '`' || c == '\'' || c == '-' || c == '$'
        || c == '\r' || c == '\n' || c == '~'
}

/// Where the run of plain text starting at `pos` ends.
pub open spec fn sp_text_end(s: Seq<char>, pos: int) -> int
    decreases s.len() - pos + 1,
{
    if pos < 0 || pos >= s.len() || is_reserved(s[pos]) {
        pos
    } else {
        sp_text_end(s, pos + 1)
    }
}

/// A text span never runs backward, and stays within the input.
pub proof fn lemma_text_end_bounds(s: Seq<char>, pos: int)
    requires
        0 <= pos <= s.len(),
    ensures
        pos <= sp_text_end(s, pos) <= s.len(),
    decreases s.len() - pos + 1,
{
    if !(pos >= s.len() || is_reserved(s[pos])) {
        lemma_text_end_bounds(s, pos + 1);
    }
}

/// The longest run of plain text from `pos`: returns the index just past it.
pub fn text_span(input: &Vec<char>, pos: usize) -> (end: usize)
    requires
        pos <= input@.len(),
    ensures
        pos <= end <= input@.len(),
        end == sp_text_end(input@, pos as int),
        forall|j: int| pos <= j < end ==> !is_reserved(input@[j]),
        end < input@.len() ==> is_reserved(input@[end as int]),
{
    let mut end = pos;
    while end < input.len() && !reserved_char(input[end])
        invariant
            pos <= end <= input@.len(),
            sp_text_end(input@, pos as int) == sp_text_end(input@, end as int),
            forall|j: int| pos <= j < end ==> !is_reserved(input@[j]),
        decreases input@.len() - end,
    {
        end = end + 1;
    }
    end
}

/// Where the line starting at `e` ends: the next line-ending character, or
/// the end of input.
pub open spec fn sp_line_end(s: Seq<char>, e: int) -> int
    decreases s.len() - e + 1,
{
    if e < 0 || e >= s.len() || s[e] == '\n' || s[e] == '\r' {
        e
    } else {
        sp_line_end(s, e + 1)
    }
}

/// A line scan never runs backward, and stays within the input.
pub proof fn lemma_line_end_bounds(s: Seq<char>, e: int)
    requires
        0 <= e <= s.len(),
    ensures
        e <= sp_line_end(s, e) <= s.len(),
    decreases s.len() - e + 1,
{
    if !(e >= s.len() || s[e] == '\n' || s[e] == '\r') {
        lemma_line_end_bounds(s, e + 1);
    }
}

/// A comment runs from the `%` at `pos` to the line ending or the end of
/// input: returns the index just past its text (the line ending stays).
pub fn comment(input: &Vec<char>, pos: usize) -> (end: usize)
    requires
        pos < input@.len(),
        input@[pos as int] == '%',
    ensures
        pos < end <= input@.len(),
        end == sp_line_end(input@, pos + 1),
        forall|j: int| pos < j < end ==> input@[j] != '\n' && input@[j] != '\r',
        end < input@.len() ==> input@[end as int] == '\n' || input@[end as int] == '\r',
{
    let n = input.len();
    let mut end = pos + 1;
    while end < n && input[end] != '\n' && input[end] != '\r'
        invariant
            n == input@.len(),
            pos < end <= input@.len(),
            sp_line_end(input@, pos + 1) == sp_line_end(input@, end as int),
            forall|j: int| pos < j < end ==> input@[j] != '\n' && input@[j] != '\r',
        decreases input@.len() - end,
    {
        end = end + 1;
    }
    end
}

/// The ligature token starting at `pos`, if any, resolved to its output
/// character: quotes, dashes, and the math minus.
pub open spec fn lig_spec(s: Seq<char>, pos: int) -> Option<(int, Seq<char>)> {
    if pos + 2 <= s.len() && s[pos] == '`' && s[pos + 1] == '`' {
        Some((pos + 2, seq!['\u{201c}']))
    } else if pos + 2 <= s.len() && s[pos] == '\'' && s[pos + 1] == '\'' {
        Some((pos + 2, seq!['\u{201d}']))
    } else if pos < s.len() && s[pos] == '`' {
        Some((pos + 1, seq!['\u{2018}']))
    } else if pos < s.len() && s[pos] == '\'' {
        Some((pos + 1, seq!['\u{2019}']))
    } else if pos + 3 <= s.len() && s[pos] == '-' && s[pos + 1] == '-' && s[pos + 2] == '-' {
        Some((pos + 3, seq!['\u{2014}']))
    } else if pos + 2 <= s.len() && s[pos] == '-' && s[pos + 1] == '-' {
        Some((pos + 2, seq!['\u{2013}']))
    } else if pos + 3 <= s.len() && s[pos] == '$' && s[pos + 1] == '-' && s[pos + 2] == '$' {
        Some((pos + 3, seq!['\u{2212}']))
    } else {
        None
    }
}

/// Recognize and resolve a ligature token at `pos`.
pub fn tex_ligature(input: &Vec<char>, pos: usize) -> (r: Option<(usize, String)>)
    requires
        pos <= input@.len(),
    ensures
        match r {
            Some((end, out)) => lig_spec(input@, pos as int) == Some((end as int, out@)),
            None => lig_spec(input@, pos as int) is None,
        },
{
    let n = input.len();
    if n - pos >= 2 && input[pos] == '`' && input[pos + 1] == '`' {
        let out = String::from_str("\u{201c}");
        proof {
            reveal_strlit("\u{201c}");
            assert(out@ =~= seq!['\u{201c}']);
        }
        Some((pos + 2, out))
    } else if n - pos >= 2 && input[pos] == '\'' && input[pos + 1] == '\'' {
        let out = String::from_str("\u{201d}");
        proof {
            reveal_strlit("\u{201d}");
            assert(out@ =~= seq!['\u{201d}']);
        }
        Some((pos + 2, out))
    } else if pos < n && input[pos] == '`' {
        let out = String::from_str("\u{2018}");
        proof {
            reveal_strlit("\u{2018}");
            assert(out@ =~= seq!['\u{2018}']);
        }
        Some((pos + 1, out))
    } else if pos < n && input[pos] == '\'' {
        let out = String::from_str("\u{2019}");
        proof {
            reveal_strlit("\u{2019}");
            assert(out@ =~= seq!['\u{2019}']);
        }
        Some((pos + 1, out))
    } else if n - pos >= 3 && input[pos] == '-' && input[pos + 1] == '-' && input[pos + 2] == '-' {
        let out = String::from_str("\u{2014}");
        proof {
            reveal_strlit("\u{2014}");
            assert(out@ =~= seq!['\u{2014}']);
        }
        Some((pos + 3, out))
    } else if n - pos >= 2 && input[pos] == '-' && input[pos + 1] == '-' {
        let out = String::from_str("\u{2013}");
        proof {
            reveal_strlit("\u{2013}");
            assert(out@ =~= seq!['\u{2013}']);
        }
        Some((pos + 2, out))
    } else if n - pos >= 3 && input[pos] == '$' && input[pos + 1] == '-' && input[pos + 2] == '$' {
        let out = String::from_str("\u{2212}");
        proof {
            reveal_strlit("\u{2212}");
            assert(out@ =~= seq!['\u{2212}']);
        }
        Some((pos + 3, out))
    } else {
        None
    }
}

/// Copy `input[from..to]` into a fresh vector.
pub fn slice_chars(input: &Vec<char>, from: usize, to: usize) -> (r: Vec<char>)
    requires
        from <= to <= input@.len(),
    ensures
        r@ == input@.subrange(from as int, to as int),
{
    let mut r: Vec<char> = Vec::new();
    let mut i = from;
    while i < to
        invariant
            from <= i <= to <= input@.len(),
            r@ == input@.subrange(from as int, i as int),
        decreases to - i,
    {
        r.push(input[i]);
        i = i + 1;
        assert(r@ =~= input@.subrange(from as int, i as int));
    }
    r
}

/// Copy `input[from..to]` into a fresh string.
pub fn slice_string(input: &Vec<char>, from: usize, to: usize) -> (r: String)
    requires
        from <= to <= input@.len(),
    ensures
        r@ == input@.subrange(from as int, to as int),
{
    let v = slice_chars(input, from, to);
    chars_to_string(&v)
}

/// True when the paragraph terminator `\par ` stands at `pos`.
pub open spec fn par_terminator_at(s: Seq<char>, pos: int) -> bool {
    pos + 5 <= s.len() && s[pos] == '\\' && s[pos + 1] == 'p' && s[pos + 2] == 'a' && s[pos + 3]
        == 'r' && s[pos + 4] == ' '
}

/// True when a blank-line terminator stands at `pos`.
pub open spec fn blank_line_at(s: Seq<char>, pos: int) -> bool {
    (pos + 2 <= s.len() && s[pos] == '\n' && s[pos + 1] == '\n') || (pos + 4 <= s.len() && s[pos]
        == '\r' && s[pos + 1] == '\n' && s[pos + 2] == '\r' && s[pos + 3] == '\n')
}

/// The views of a vector of collected spans.
pub open spec fn spans_view(v: Seq<String>) -> Seq<Seq<char>> {
    Seq::new(v.len(), |i: int| v[i]@)
}

/// What collecting one paragraph's contents from `pos` yields: the in-order
/// sequence of text spans and comment texts before the first terminator
/// (`\par `, a blank line in either line-ending convention, or the end of
/// input), together with the position just past the consumed terminator.
/// Single line endings between contents are consumed silently. `None` exactly
/// when a reserved character with no place in plain paragraph contents is
/// reached first.
pub open spec fn sp_paragraph(s: Seq<char>, pos: int) -> Option<(int, Seq<Seq<char>>)>
    decreases s.len() - pos + 1,
    via sp_paragraph_dec
{
    if pos < 0 || pos >= s.len() {
        Some((pos, Seq::empty()))
    } else if par_terminator_at(s, pos) {
        Some((pos + 5, Seq::empty()))
    } else if blank_line_at(s, pos) {
        Some(
            (
                pos + if s[pos] == '\r' {
                    4int
                } else {
                    2int
                },
                Seq::empty(),
            ),
        )
    } else if s[pos] == '%' {
        let end = sp_line_end(s, pos + 1);
        match sp_paragraph(s, end) {
            Some((e, rest)) => Some((e, seq![s.subrange(pos + 1, end)] + rest)),
            None => None,
        }
    } else if s[pos] == '\r' && pos + 2 <= s.len() && s[pos + 1] == '\n' {
        sp_paragraph(s, pos + 2)
    } else if s[pos] == '\n' {
        sp_paragraph(s, pos + 1)
    } else if is_reserved(s[pos]) {
        None
    } else {
        let end = sp_text_end(s, pos);
        match sp_paragraph(s, end) {
            Some((e, rest)) => Some((e, seq![s.subrange(pos, end)] + rest)),
            None => None,
        }
    }
}

#[via_fn]
proof fn sp_paragraph_dec(s: Seq<char>, pos: int) {
    if 0 <= pos < s.len() {
        lemma_line_end_bounds(s, pos + 1);
        if !is_reserved(s[pos]) {
            lemma_text_end_bounds(s, pos + 1);
        }
    }
}

/// Collect one paragraph's contents from `pos`, exactly as [`sp_paragraph`]
/// describes.
pub fn paragraph(input: &Vec<char>, pos: usize) -> (r: Option<(usize, Vec<String>)>)
    requires
        pos <= input@.len(),
    ensures
        match r {
            Some((end, spans)) => pos <= end <= input@.len() && sp_paragraph(input@, pos as int)
                == Some((end as int, spans_view(spans@))),
            None => sp_paragraph(input@, pos as int) is None,
        },
{
    let mut out: Vec<String> = Vec::new();
    let mut p = pos;
    proof {
        assert(spans_view(out@) =~= Seq::<Seq<char>>::empty());
    }
    loop
        invariant
            pos <= p <= input@.len(),
            match sp_paragraph(input@, p as int) {
                Some((e2, rest)) => sp_paragraph(input@, pos as int) == Some(
                    (e2, spans_view(out@) + rest),
                ),
                None => sp_paragraph(input@, pos as int) is None,
            },
        decreases input@.len() - p,
    {
        let ghost outv = spans_view(out@);
        if p >= input.len() {
            proof {
                assert(outv + Seq::<Seq<char>>::empty() =~= outv);
            }
            return Some((p, out));
        }
        if input.len() - p >= 5 && input[p] == '\\' && input[p + 1] == 'p' && input[p + 2] == 'a'
            && input[p + 3] == 'r' && input[p + 4] == ' ' {
            proof {
                assert(par_terminator_at(input@, p as int));
                assert(outv + Seq::<Seq<char>>::empty() =~= outv);
            }
            return Some((p + 5, out));
        }
        if input.len() - p >= 4 && input[p] == '\r' && input[p + 1] == '\n' && input[p + 2] == '\r'
            && input[p + 3] == '\n' {
            proof {
                assert(!par_terminator_at(input@, p as int));
                assert(blank_line_at(input@, p as int));
                assert(outv + Seq::<Seq<char>>::empty() =~= outv);
            }
            return Some((p + 4, out));
        }
        if input.len() - p >= 2 && input[p] == '\n' && input[p + 1] == '\n' {
            proof {
                assert(!par_terminator_at(input@, p as int));
                assert(blank_line_at(input@, p as int));
                assert(outv + Seq::<Seq<char>>::empty() =~= outv);
            }
            return Some((p + 2, out));
        }
        proof {
            assert(!par_terminator_at(input@, p as int));
            assert(!blank_line_at(input@, p as int));
        }
        let c = input[p];
        if c == '%' {
            let end = comment(input, p);
            out.push(slice_string(input, p + 1, end));
            proof {
                let piece = input@.subrange(p + 1, end as int);
                assert(spans_view(out@) =~= outv.push(piece));
                match sp_paragraph(input@, end as int) {
                    Some((e2, rest)) => {
                        assert(outv + (seq![piece] + rest) =~= spans_view(out@) + rest);
                    },
                    None => {},
                }
            }
            p = end;
        } else if c == '\r' && input.len() - p >= 2 && input[p + 1] == '\n' {
            p = p + 2;
        } else if c == '\n' {
            p = p + 1;
        } else if reserved_char(c) {
            return None;
        } else {
            let end = text_span(input, p);
            out.push(slice_string(input, p, end));
            proof {
                let piece = input@.subrange(p as int, end as int);
                assert(spans_view(out@) =~= outv.push(piece));
                match sp_paragraph(input@, end as int) {
                    Some((e2, rest)) => {
                        assert(outv + (seq![piece] + rest) =~= spans_view(out@) + rest);
                    },
                    None => {},
                }
            }
            p = end;
        }
    }
}

} // verus!