//! HTML escaping of literal text, and decimal rendering of paragraph ids.
//!
//! All literal content the renderer emits passes through [`escape_chars`], so
//! a rendered buffer never carries a raw `&`, `<` or `>` from the manuscript:
//! angle brackets never occur in escaped text at all, and every `&` in it
//! begins one of the four entities.

use vstd::prelude::*;

verus! {

/// The entity form of one character of literal text.
pub open spec fn entity_of(c: char) -> Seq<char> {
    if c == '&' {
        seq!['&', 'a', 'm', 'p', ';']
    } else if c == '<' {
        seq!['&', 'l', 't', ';']
    } else if c == '>' {
        seq!['&', 'g', 't', ';']
    } else if c == '"' {
        seq!['&', 'q', 'u', 'o', 't', ';']
    } else {
        seq![c]
    }
}

/// The escaped form of a run of literal text.
pub open spec fn escape_text(t: Seq<char>) -> Seq<char>
    decreases t.len(),
{
    if t.len() == 0 {
        Seq::empty()
    } else {
        escape_text(t.drop_last()) + entity_of(t.last())
    }
}

/// Escape a run of literal text for inclusion in an HTML fragment.
pub fn escape_chars(t: &Vec<char>) -> (r: Vec<char>)
    ensures
        r@ == escape_text(t@),
{
    let mut r: Vec<char> = Vec::new();
    let mut i: usize = 0;
    while i < t.len()
        invariant
            i <= t@.len(),
            r@ == escape_text(t@.subrange(0, i as int)),
        decreases t@.len() - i,
    {
        let c = t[i];
        if c == '&' {
            r.push('&');
            r.push('a');
            r.push('m');
            r.push('p');
            r.push(';');
        } else if c == '<' {
            r.push('&');
            r.push('l');
            r.push('t');
            r.push(';');
        } else if c == '>' {
            r.push('&');
            r.push('g');
            r.push('t');
            r.push(';');
        } else if c == '"' {
            r.push('&');
            r.push('q');
            r.push('u');
            r.push('o');
            r.push('t');
            r.push(';');
        } else {
            r.push(c);
        }
        proof {
            let pre = t@.subrange(0, i as int);
            let cur = t@.subrange(0, i + 1int);
            assert(cur.drop_last() =~= pre);
            assert(cur.last() == t@[i as int]);
            assert(r@ =~= escape_text(pre) + entity_of(t@[i as int]));
        }
        i = i + 1;
    }
    assert(t@.subrange(0, t@.len() as int) =~= t@);
    r
}

/// Text with no angle bracket anywhere.
pub open spec fn no_angle(s: Seq<char>) -> bool {
    forall|i: int| 0 <= i < s.len() ==> s[i] != '<' && s[i] != '>'
}

/// Escaped text never contains an angle bracket.
pub proof fn lemma_escape_no_angle(t: Seq<char>)
    ensures
        no_angle(escape_text(t)),
    decreases t.len(),
{
    if t.len() > 0 {
        lemma_escape_no_angle(t.drop_last());
        let p = escape_text(t.drop_last());
        let e = entity_of(t.last());
        let s = escape_text(t);
        assert(s == p + e);
        assert forall|i: int| 0 <= i < s.len() implies s[i] != '<' && s[i] != '>' by {
            if i < p.len() {
                assert(s[i] == p[i]);
            } else {
                assert(s[i] == e[i - p.len()]);
            }
        }
    }
}

/// `s` carries an ampersand at `i` only as the start of a complete entity.
pub open spec fn entity_at(s: Seq<char>, i: int) -> bool {
    (i + 5 <= s.len() && s.subrange(i, i + 5) == seq!['&', 'a', 'm', 'p', ';']) || (i + 4
        <= s.len() && s.subrange(i, i + 4) == seq!['&', 'l', 't', ';']) || (i + 4 <= s.len()
        && s.subrange(i, i + 4) == seq!['&', 'g', 't', ';']) || (i + 6 <= s.len() && s.subrange(
        i,
        i + 6,
    ) == seq!['&', 'q', 'u', 'o', 't', ';'])
}

/// Every ampersand in `s` begins one of the four entities.
pub open spec fn amps_are_entities(s: Seq<char>) -> bool {
    forall|i: int| 0 <= i < s.len() && s[i] == '&' ==> entity_at(s, i)
}

/// Escaped text carries `&` only as the start of a complete entity.
pub proof fn lemma_escape_amps(t: Seq<char>)
    ensures
        amps_are_entities(escape_text(t)),
    decreases t.len(),
{
    if t.len() == 0 {
    } else {
        let p = escape_text(t.drop_last());
        let e = entity_of(t.last());
        lemma_escape_amps(t.drop_last());
        lemma_escape_no_angle(t.drop_last());
        let s = escape_text(t);
        assert(s == p + e);
        assert forall|i: int| 0 <= i < s.len() && s[i] == '&' implies entity_at(s, i) by {
            if i < p.len() {
                assert(entity_at(p, i));
                if i + 5 <= p.len() && p.subrange(i, i + 5) == seq!['&', 'a', 'm', 'p', ';'] {
                    assert(s.subrange(i, i + 5) =~= p.subrange(i, i + 5));
                } else if i + 4 <= p.len() && p.subrange(i, i + 4) == seq!['&', 'l', 't', ';'] {
                    assert(s.subrange(i, i + 4) =~= p.subrange(i, i + 4));
                } else if i + 4 <= p.len() && p.subrange(i, i + 4) == seq!['&', 'g', 't', ';'] {
                    assert(s.subrange(i, i + 4) =~= p.subrange(i, i + 4));
                } else {
                    assert(s.subrange(i, i + 6) =~= p.subrange(i, i + 6));
                }
            } else {
                let c = t.last();
                if c == '&' {
                    assert(i == p.len());
                    assert(s.subrange(i, i + 5) =~= e);
                } else if c == '<' {
                    assert(i == p.len());
                    assert(s.subrange(i, i + 4) =~= e);
                } else if c == '>' {
                    assert(i == p.len());
                    assert(s.subrange(i, i + 4) =~= e);
                } else if c == '"' {
                    assert(i == p.len());
                    assert(s.subrange(i, i + 6) =~= e);
                } else {
                    assert(s[i] == c);
                    assert(false);
                }
            }
        }
    }
}

/// The character for one decimal digit.
pub open spec fn digit_char(d: nat) -> char {
    if d == 0 {
        '0'
    } else if d == 1 {
        '1'
    } else if d == 2 {
        '2'
    } else if d == 3 {
        '3'
    } else if d == 4 {
        '4'
    } else if d == 5 {
        '5'
    } else if d == 6 {
        '6'
    } else if d == 7 {
        '7'
    } else if d == 8 {
        '8'
    } else {
        '9'
    }
}

/// The decimal digits of `n`, most significant first.
pub open spec fn digits_of(n: nat) -> Seq<char>
    decreases n,
{
    if n < 10 {
        seq![digit_char(n)]
    } else {
        digits_of(n / 10).push(digit_char(n % 10))
    }
}

/// One of the ten decimal digit characters.
pub open spec fn is_ascii_digit(c: char) -> bool {
    c == '0' || c == '1' || c == '2' || c == '3' || c == '4' || c == '5' || c == '6' || c == '7'
        || c == '8' || c == '9'
}

/// Decimal digits are digit characters, never markup characters, and a
/// counter value always has at least one digit.
pub proof fn lemma_digits_plain(n: nat)
    ensures
        digits_of(n).len() >= 1,
        forall|i: int| 0 <= i < digits_of(n).len() ==> is_ascii_digit(#[trigger] digits_of(n)[i]),
        forall|i: int|
            0 <= i < digits_of(n).len() ==> digits_of(n)[i] != '<' && digits_of(n)[i] != '>'
                && digits_of(n)[i] != '&',
    decreases n,
{
    if n >= 10 {
        lemma_digits_plain(n / 10);
        let p = digits_of(n / 10);
        let s = digits_of(n);
        assert(s == p.push(digit_char(n % 10)));
        assert forall|i: int| 0 <= i < s.len() implies is_ascii_digit(#[trigger] s[i]) && s[i]
            != '<' && s[i] != '>' && s[i] != '&' by {
            if i < p.len() {
                assert(s[i] == p[i]);
                assert(is_ascii_digit(p[i]));
            } else {
                assert(s[i] == digit_char(n % 10));
            }
        }
    }
}

/// Render a counter value in decimal.
pub fn u32_digits(n: u32) -> (r: Vec<char>)
    ensures
        r@ == digits_of(n as nat),
    decreases n,
{
    let d = n % 10;
    let c: char = if d == 0 {
        '0'
    } else if d == 1 {
        '1'
    } else if d == 2 {
        '2'
    } else if d == 3 {
        '3'
    } else if d == 4 {
        '4'
    } else if d == 5 {
        '5'
    } else if d == 6 {
        '6'
    } else if d == 7 {
        '7'
    } else if d == 8 {
        '8'
    } else {
        '9'
    };
    if n < 10 {
        let mut r: Vec<char> = Vec::new();
        r.push(c);
        assert(r@ =~= digits_of(n as nat));
        r
    } else {
        let mut r = u32_digits(n / 10);
        r.push(c);
        assert(r@ =~= digits_of(n as nat));
        r
    }
}

} // verus!
