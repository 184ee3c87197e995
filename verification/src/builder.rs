//! The tree builder: turns source text into a typed document tree,
//! resolving file inclusion (with cycle detection), command and argument
//! binding, and token validation against the symbol table.
//!
//! The whole build is specified by a parse machine at the specification
//! level ([`sp_book`] and the functions under it): each executable function
//! returns exactly what its specification counterpart computes, success and
//! error alike, so the tree and every reported error are fixed as functions
//! of the sources.
//!
//! Sources are handed in as plain `(path, contents)` pairs; reading files is
//! the caller's business. A missing file surfaces as `IoError` naming it, so
//! a driver can read it and try again.

use vstd::prelude::*;
use vstd::string::StringExecFns;
use crate::Atom;
use crate::Book;
use crate::BuildError;
use crate::wf_atom;
use crate::textutil::chars_to_string;
use crate::textutil::str_to_chars;
use crate::textutil::str_eq;

verus! {

/// Line number (starting at 1) of the position `n` characters into `s`.
pub open spec fn spec_line(s: Seq<char>, n: int) -> nat
    decreases n,
{
    if n <= 0 {
        1
    } else {
        spec_line(s, n - 1) + if s[n - 1] == '\n' {
            1nat
        } else {
            0nat
        }
    }
}

/// Column number (starting at 1) of the position `n` characters into `s`.
pub open spec fn spec_col(s: Seq<char>, n: int) -> nat
    decreases n,
{
    if n <= 0 {
        1
    } else if s[n - 1] == '\n' {
        1
    } else {
        spec_col(s, n - 1) + 1
    }
}

/// Compute the line and column of a position, for error reports. The counts
/// saturate at what a `usize` can hold.
pub fn line_col(input: &Vec<char>, pos: usize) -> (r: (usize, usize))
    requires
        pos <= input@.len(),
    ensures
        r.0 == sp_line_of(input@, pos as int),
        r.1 == sp_col_of(input@, pos as int),
{
    let mut line: usize = 1;
    let mut col: usize = 1;
    let mut i: usize = 0;
    while i < pos
        invariant
            i <= pos <= input@.len(),
            line == sp_line_of(input@, i as int),
            col == sp_col_of(input@, i as int),
        decreases pos - i,
    {
        if input[i] == '\n' {
            if line < usize::MAX {
                line = line + 1;
            }
            col = 1;
        } else {
            if col < usize::MAX {
                col = col + 1;
            }
        }
        i = i + 1;
    }
    (line, col)
}

/// The directory prefix of a path: everything up to and including the last
/// slash, or empty when there is none.
pub open spec fn dir_of(s: Seq<char>) -> Seq<char>
    decreases s.len(),
{
    if s.len() == 0 {
        Seq::empty()
    } else if s.last() == '/' {
        s
    } else {
        dir_of(s.drop_last())
    }
}

/// Where an include directive points: the name, resolved relative to the
/// including file's directory, with the dialect's source suffix appended.
pub open spec fn resolved_include(cur: Seq<char>, name: Seq<char>) -> Seq<char> {
    dir_of(cur) + name + ".tex"@
}

/// Resolve an include name against the path of the including file.
pub fn resolve_include(cur: &str, name: &str) -> (r: String)
    ensures
        r@ == resolved_include(cur@, name@),
{
    let cs = str_to_chars(cur);
    let mut k = cs.len();
    assert(cur@.subrange(0, k as int) =~= cur@);
    while k > 0 && cs[k - 1] != '/'
        invariant
            k <= cs@.len(),
            cs@ == cur@,
            dir_of(cur@) == dir_of(cur@.subrange(0, k as int)),
        decreases k,
    {
        proof {
            let pre = cur@.subrange(0, k as int);
            assert(pre.drop_last() =~= cur@.subrange(0, k - 1));
            assert(pre.last() == cur@[k - 1]);
        }
        k = k - 1;
    }
    proof {
        let pre = cur@.subrange(0, k as int);
        if k > 0 {
            assert(pre.last() == cur@[k - 1]);
            assert(dir_of(pre) == pre);
        } else {
            assert(pre =~= Seq::<char>::empty());
        }
    }
    let mut out = slice_to_vec_chars(&cs, k);
    let ns = str_to_chars(name);
    let mut j: usize = 0;
    while j < ns.len()
        invariant
            j <= ns@.len(),
            ns@ == name@,
            out@ == dir_of(cur@) + ns@.subrange(0, j as int),
        decreases ns@.len() - j,
    {
        out.push(ns[j]);
        j = j + 1;
        assert(out@ =~= dir_of(cur@) + ns@.subrange(0, j as int));
    }
    assert(out@ =~= dir_of(cur@) + name@);
    out.push('.');
    out.push('t');
    out.push('e');
    out.push('x');
    proof {
        reveal_strlit(".tex");
        assert(out@ =~= dir_of(cur@) + name@ + ".tex"@);
    }
    chars_to_string(&out)
}

/// The first `k` characters of `cs`, as a fresh vector.
fn slice_to_vec_chars(cs: &Vec<char>, k: usize) -> (r: Vec<char>)
    requires
        k <= cs@.len(),
    ensures
        r@ == cs@.subrange(0, k as int),
{
    let mut r: Vec<char> = Vec::new();
    let mut i: usize = 0;
    while i < k
        invariant
            i <= k <= cs@.len(),
            r@ == cs@.subrange(0, i as int),
        decreases k - i,
    {
        r.push(cs[i]);
        i = i + 1;
        assert(r@ =~= cs@.subrange(0, i as int));
    }
    r
}

/// The set of file names the source table offers.
#[verifier::opaque]
pub open spec fn source_names(sources: Seq<(String, String)>) -> Set<Seq<char>> {
    sources.map_values(|p: (String, String)| p.0@).to_set()
}

/// The inclusion chain as a sequence of path texts.
pub open spec fn chain_views(chain: Seq<String>) -> Seq<Seq<char>> {
    chain.map_values(|s: String| s@)
}

/// A well-formed inclusion chain: no file twice, every file a known source.
pub open spec fn chain_ok(chain: Seq<String>, sources: Seq<(String, String)>) -> bool {
    chain_views(chain).no_duplicates() && (forall|i: int|
        0 <= i < chain.len() ==> source_names(sources).contains(#[trigger] chain_views(chain)[i]))
}

/// A well-formed inclusion chain is never longer than the source table.
pub proof fn lemma_chain_len(chain: Seq<String>, sources: Seq<(String, String)>)
    requires
        chain_ok(chain, sources),
    ensures
        chain.len() <= sources.len(),
{
    broadcast use vstd::seq_lib::seq_to_set_is_finite;

    reveal(source_names);
    let cv = chain_views(chain);
    let names = sources.map_values(|p: (String, String)| p.0@);
    cv.unique_seq_to_set();
    assert(cv.to_set().subset_of(names.to_set())) by {
        assert forall|x: Seq<char>| cv.to_set().contains(x) implies names.to_set().contains(
            x,
        ) by {
            let i = choose|i: int| 0 <= i < cv.len() && cv[i] == x;
            assert(source_names(sources).contains(cv[i]));
        }
    }
    vstd::set_lib::lemma_len_subset(cv.to_set(), names.to_set());
    names.lemma_cardinality_of_set();
}

/// Find the first source file of this name; `None` means no source carries
/// it.
pub fn find_source<'a>(sources: &'a Vec<(String, String)>, name: &str) -> (r: Option<&'a String>)
    ensures
        match r {
            Some(text) => sp_find_from(sources_view(sources@), name@, 0) == Some(text@) && (
            exists|k: int|
                0 <= k < sources@.len() && (#[trigger] sources@[k]).0@ == name@ && sources@[k].1
                    == *text),
            None => sp_find_from(sources_view(sources@), name@, 0) is None && (forall|k: int|
                0 <= k < sources@.len() ==> (#[trigger] sources@[k]).0@ != name@),
        },
{
    let ghost sv = sources_view(sources@);
    let mut k: usize = 0;
    while k < sources.len()
        invariant
            k <= sources@.len(),
            sv == sources_view(sources@),
            sp_find_from(sv, name@, 0) == sp_find_from(sv, name@, k as int),
            forall|j: int| 0 <= j < k ==> (#[trigger] sources@[j]).0@ != name@,
        decreases sources@.len() - k,
    {
        if str_eq(sources[k].0.as_str(), name) {
            proof {
                assert(sv[k as int].0 == name@);
                assert(sp_find_from(sv, name@, k as int) == Some(sv[k as int].1));
            }
            return Some(&sources[k].1);
        }
        proof {
            assert(sv[k as int].0 != name@);
        }
        k = k + 1;
    }
    None
}

/// Whether the inclusion chain already carries this path.
pub fn chain_contains(chain: &Vec<String>, name: &str) -> (r: bool)
    ensures
        r == exists|i: int| 0 <= i < chain@.len() && (#[trigger] chain@[i])@ == name@,
{
    let mut i: usize = 0;
    while i < chain.len()
        invariant
            i <= chain@.len(),
            forall|j: int| 0 <= j < i ==> (#[trigger] chain@[j])@ != name@,
        decreases chain@.len() - i,
    {
        if str_eq(chain[i].as_str(), name) {
            return true;
        }
        i = i + 1;
    }
    false
}

/// The document tree at the specification level: each node of [`Atom`],
/// with text as character sequences.
#[verifier::ext_equal]
pub ghost enum SpecAtom {
    List(Seq<SpecAtom>),
    Comment(Seq<char>),
    Text(Seq<char>),
    Escaped(char),
    Special(Seq<char>),
    NamedSymbol(Seq<char>),
    StartChapter(Box<SpecAtom>),
    StartSection(Box<SpecAtom>),
    Footnote(Box<SpecAtom>),
    Italic(Box<SpecAtom>),
    BeginEnvironment(Seq<char>),
    EndEnvironment(Seq<char>),
    ParagraphEnd,
    Ignore,
}

/// The specification-level view of a tree node.
pub open spec fn atom_view(a: Atom) -> SpecAtom
    decreases a, 0int, 0int,
{
    match a {
        Atom::List(l) => SpecAtom::List(atoms_view_from(l@, 0)),
        Atom::Comment(s) => SpecAtom::Comment(s@),
        Atom::Text(s) => SpecAtom::Text(s@),
        Atom::Escaped(c) => SpecAtom::Escaped(c),
        Atom::Special(s) => SpecAtom::Special(s@),
        Atom::NamedSymbol(s) => SpecAtom::NamedSymbol(s@),
        Atom::StartChapter(t) => SpecAtom::StartChapter(Box::new(atom_view(*t))),
        Atom::StartSection(t) => SpecAtom::StartSection(Box::new(atom_view(*t))),
        Atom::Footnote(b) => SpecAtom::Footnote(Box::new(atom_view(*b))),
        Atom::Italic(c) => SpecAtom::Italic(Box::new(atom_view(*c))),
        Atom::BeginEnvironment(s) => SpecAtom::BeginEnvironment(s@),
        Atom::EndEnvironment(s) => SpecAtom::EndEnvironment(s@),
        Atom::ParagraphEnd => SpecAtom::ParagraphEnd,
        Atom::Ignore => SpecAtom::Ignore,
    }
}

/// The views of the nodes of `v` from index `i` on.
pub open spec fn atoms_view_from(v: Seq<Atom>, i: nat) -> Seq<SpecAtom>
    decreases v, 1int, v.len() - i,
{
    if i >= v.len() {
        Seq::empty()
    } else {
        seq![atom_view(v[i as int])] + atoms_view_from(v, i + 1)
    }
}

/// The views of a sequence of tree nodes.
pub open spec fn atoms_view(v: Seq<Atom>) -> Seq<SpecAtom> {
    atoms_view_from(v, 0)
}

/// The view of a node sequence is its nodes' views, elementwise.
pub proof fn lemma_atoms_view_from(v: Seq<Atom>, i: nat)
    ensures
        atoms_view_from(v, i).len() == if i <= v.len() {
            v.len() - i
        } else {
            0
        },
        forall|j: int|
            0 <= j < atoms_view_from(v, i).len() ==> atoms_view_from(v, i)[j] == atom_view(
                v[i + j],
            ),
    decreases v, 1int, v.len() - i,
{
    if i < v.len() {
        lemma_atoms_view_from(v, i + 1);
        let head = seq![atom_view(v[i as int])];
        let rest = atoms_view_from(v, i + 1);
        assert forall|j: int| 0 <= j < atoms_view_from(v, i).len() implies atoms_view_from(v, i)[j]
            == atom_view(v[i + j]) by {
            if j == 0 {
                assert(atoms_view_from(v, i)[0] == head[0]);
            } else {
                assert(atoms_view_from(v, i)[j] == rest[j - 1]);
            }
        }
    }
}

/// Appending a node appends its view.
pub proof fn lemma_atoms_view_push(v: Seq<Atom>, a: Atom)
    ensures
        atoms_view(v.push(a)) =~= atoms_view(v).push(atom_view(a)),
{
    lemma_atoms_view_from(v.push(a), 0);
    lemma_atoms_view_from(v, 0);
    assert forall|j: int| 0 <= j < atoms_view(v.push(a)).len() implies atoms_view(v.push(a))[j]
        == atoms_view(v).push(atom_view(a))[j] by {
        if j < v.len() {
            assert(v.push(a)[j] == v[j]);
        } else {
            assert(v.push(a)[j] == a);
        }
    }
}

/// A build failure at the specification level, mirroring [`BuildError`]
/// with text as character sequences.
#[verifier::ext_equal]
pub ghost enum PErr {
    Io(Seq<char>),
    Syntax { path: Seq<char>, line: usize, column: usize, expected: Seq<char> },
    Unsupported { kind: Seq<char>, path: Seq<char>, line: usize, column: usize },
    Cycle(Seq<Seq<char>>),
}

/// The specification-level view of a build error.
pub open spec fn err_view(e: BuildError) -> PErr {
    match e {
        BuildError::IoError(p) => PErr::Io(p@),
        BuildError::SyntaxError { path, line, column, expected } => PErr::Syntax {
            path: path@,
            line,
            column,
            expected: expected@,
        },
        BuildError::UnsupportedConstruct { kind, path, line, column } => PErr::Unsupported {
            kind: kind@,
            path: path@,
            line,
            column,
        },
        BuildError::IncludeCycle(c) => PErr::Cycle(chain_views(c@)),
    }
}

/// The source table as `(path, contents)` character sequences.
pub open spec fn sources_view(s: Seq<(String, String)>) -> Seq<(Seq<char>, Seq<char>)> {
    Seq::new(s.len(), |i: int| ((s[i].0)@, (s[i].1)@))
}

/// A count clipped to what a `usize` can hold.
pub open spec fn sat(n: nat) -> usize {
    if n > usize::MAX as nat {
        usize::MAX
    } else {
        n as usize
    }
}

/// The reported line of a position.
pub open spec fn sp_line_of(s: Seq<char>, pos: int) -> usize {
    sat(spec_line(s, pos))
}

/// The reported column of a position.
pub open spec fn sp_col_of(s: Seq<char>, pos: int) -> usize {
    sat(spec_col(s, pos))
}

/// The index of the closing brace from `e` on, or the end of input.
pub open spec fn sp_close_brace(s: Seq<char>, e: int) -> int
    decreases s.len() - e + 1,
{
    if e < 0 || e >= s.len() || s[e] == '}' {
        e
    } else {
        sp_close_brace(s, e + 1)
    }
}

/// The end of the run of letters from `e` on.
pub open spec fn sp_letters_end(s: Seq<char>, e: int) -> int
    decreases s.len() - e + 1,
{
    if e < 0 || e >= s.len() || !is_letter(s[e]) {
        e
    } else {
        sp_letters_end(s, e + 1)
    }
}

/// The first `c` in `s[i..e)`, or `e` when there is none.
pub open spec fn sp_scan_char(s: Seq<char>, i: int, e: int, c: char) -> int
    decreases e - i + 1,
{
    if i >= e {
        e
    } else if s[i] == c {
        i
    } else {
        sp_scan_char(s, i + 1, e, c)
    }
}

/// Where a text span is cut when a closing bracket delimits it: at the first
/// `c` after its first character, or at `e`.
pub open spec fn sp_first_in(s: Seq<char>, pos: int, e: int, c: char) -> int {
    if pos >= e {
        e
    } else {
        sp_scan_char(s, pos + 1, e, c)
    }
}

/// The end of the run of line endings from `p` on, and how many it holds.
pub open spec fn sp_nl_run(s: Seq<char>, p: int) -> (int, nat)
    decreases s.len() - p + 1,
{
    if p < 0 || p >= s.len() || (s[p] != '\r' && s[p] != '\n') {
        (p, 0)
    } else {
        let p2 = if s[p] == '\r' && p + 2 <= s.len() && s[p + 1] == '\n' {
            p + 2
        } else {
            p + 1
        };
        let r = sp_nl_run(s, p2);
        (r.0, r.1 + 1)
    }
}

/// The ligature or special token at `pos` (one of `` ` ``, `'`, `-`, `$`)
/// and the position just past it.
pub open spec fn sp_token(s: Seq<char>, pos: int) -> (int, Seq<char>) {
    if s[pos] == '`' {
        if pos + 2 <= s.len() && s[pos + 1] == '`' {
            (pos + 2, "``"@)
        } else {
            (pos + 1, "`"@)
        }
    } else if s[pos] == '\'' {
        if pos + 2 <= s.len() && s[pos + 1] == '\'' {
            (pos + 2, "''"@)
        } else {
            (pos + 1, "'"@)
        }
    } else if s[pos] == '-' {
        if pos + 3 <= s.len() && s[pos + 1] == '-' && s[pos + 2] == '-' {
            (pos + 3, "---"@)
        } else if pos + 2 <= s.len() && s[pos + 1] == '-' {
            (pos + 2, "--"@)
        } else {
            (pos + 1, "-"@)
        }
    } else {
        if pos + 3 <= s.len() && s[pos + 1] == '-' && s[pos + 2] == '$' {
            (pos + 3, "$-$"@)
        } else {
            (pos + 1, "$"@)
        }
    }
}

/// The contents of the first source whose name matches, from index `k` on.
pub open spec fn sp_find_from(sv: Seq<(Seq<char>, Seq<char>)>, name: Seq<char>, k: int) -> Option<
    Seq<char>,
>
    decreases sv.len() - k + 1,
{
    if k < 0 || k >= sv.len() {
        None
    } else if sv[k].0 == name {
        Some(sv[k].1)
    } else {
        sp_find_from(sv, name, k + 1)
    }
}

/// The value of the first required argument, from index `k` on.
pub open spec fn sp_take_required(args: Seq<(bool, SpecAtom)>, k: int) -> Option<SpecAtom>
    decreases args.len() - k + 1,
{
    if k < 0 || k >= args.len() {
        None
    } else if !args[k].0 {
        Some(args[k].1)
    } else {
        sp_take_required(args, k + 1)
    }
}

/// Singleton collapse at the specification level.
pub open spec fn sp_collapse(atoms: Seq<SpecAtom>) -> SpecAtom {
    if atoms.len() == 1 {
        atoms[0]
    } else {
        SpecAtom::List(atoms)
    }
}

/// A position forced into `[lo, s.len()]`. The parse functions only move
/// forward and stay inside the input (their contracts prove it); the clamp
/// keeps the specification functions total for the termination checker.
pub open spec fn clamp_pos(s: Seq<char>, lo: int, p: int) -> int {
    if p < lo {
        lo
    } else if p > s.len() {
        s.len() as int
    } else {
        p
    }
}

/// Reading a brace-delimited literal name at the specification level.
pub open spec fn sp_brace(s: Seq<char>, pos: int, path: Seq<char>) -> Result<
    (int, Seq<char>),
    PErr,
> {
    if pos >= s.len() || s[pos] != '{' {
        Err(
            PErr::Syntax {
                path: path,
                line: sp_line_of(s, pos),
                column: sp_col_of(s, pos),
                expected: "{"@,
            },
        )
    } else {
        let e = sp_close_brace(s, pos + 1);
        if e >= s.len() {
            Err(
                PErr::Syntax {
                    path: path,
                    line: sp_line_of(s, e),
                    column: sp_col_of(s, e),
                    expected: "}"@,
                },
            )
        } else {
            Ok((e + 1, s.subrange(pos + 1, e)))
        }
    }
}

/// The sibling atoms from `pos` up to the closing delimiter or the end of
/// input, at the specification level.
pub open spec fn sp_atoms(
    s: Seq<char>,
    pos: int,
    closer: Option<char>,
    sv: Seq<(Seq<char>, Seq<char>)>,
    path: Seq<char>,
    chain: Seq<Seq<char>>,
    fuel: nat,
) -> Result<(int, Seq<SpecAtom>), PErr>
    decreases fuel, s.len() - pos, 5int,
{
    if pos >= s.len() {
        match closer {
            Some(_) => Err(
                PErr::Syntax {
                    path: path,
                    line: sp_line_of(s, pos),
                    column: sp_col_of(s, pos),
                    expected: "closing delimiter"@,
                },
            ),
            None => Ok((pos, Seq::empty())),
        }
    } else if closer matches Some(c) && s[pos] == c {
        Ok((pos, Seq::empty()))
    } else {
        match sp_atom(s, pos, closer, sv, path, chain, fuel) {
            Ok((p2, a)) => match sp_atoms(s, clamp_pos(s, pos + 1, p2), closer, sv, path, chain, fuel) {
                Ok((e, rest)) => Ok((e, seq![a] + rest)),
                Err(er) => Err(er),
            },
            Err(er) => Err(er),
        }
    }
}

/// One atom at `pos`, at the specification level.
pub open spec fn sp_atom(
    s: Seq<char>,
    pos: int,
    closer: Option<char>,
    sv: Seq<(Seq<char>, Seq<char>)>,
    path: Seq<char>,
    chain: Seq<Seq<char>>,
    fuel: nat,
) -> Result<(int, SpecAtom), PErr>
    decreases fuel, s.len() - pos, 4int,
{
    let c = s[pos];
    if c == '%' {
        let end = crate::parser::sp_line_end(s, pos + 1);
        Ok((end, SpecAtom::Comment(s.subrange(pos + 1, end))))
    } else if c == '\\' {
        sp_command(s, pos, sv, path, chain, fuel)
    } else if c == '\r' || c == '\n' {
        let r = sp_nl_run(s, pos);
        if r.1 >= 2 {
            Ok((r.0, SpecAtom::ParagraphEnd))
        } else {
            Ok((r.0, SpecAtom::Special("\n"@)))
        }
    } else if c == '~' {
        Ok((pos + 1, SpecAtom::Special("~"@)))
    } else if c == '`' || c == '\'' || c == '-' || c == '$' {
        let r = sp_token(s, pos);
        match crate::symbols::symbol_spec(r.1) {
            Some(_) => Ok((r.0, SpecAtom::Special(r.1))),
            None => Err(
                PErr::Unsupported {
                    kind: r.1,
                    path: path,
                    line: sp_line_of(s, pos),
                    column: sp_col_of(s, pos),
                },
            ),
        }
    } else if c == '{' || c == '}' {
        Err(
            PErr::Unsupported {
                kind: if c == '{' {
                    "{"@
                } else {
                    "}"@
                },
                path: path,
                line: sp_line_of(s, pos),
                column: sp_col_of(s, pos),
            },
        )
    } else {
        let e = crate::parser::sp_text_end(s, pos);
        let end = if closer == Some(']') {
            sp_first_in(s, pos, e, ']')
        } else {
            e
        };
        Ok((end, SpecAtom::Text(s.subrange(pos, end))))
    }
}

/// A backslash form at `pos`, at the specification level.
pub open spec fn sp_command(
    s: Seq<char>,
    pos: int,
    sv: Seq<(Seq<char>, Seq<char>)>,
    path: Seq<char>,
    chain: Seq<Seq<char>>,
    fuel: nat,
) -> Result<(int, SpecAtom), PErr>
    decreases fuel, s.len() - pos, 3int,
{
    if s.len() - pos < 2 {
        Err(
            PErr::Syntax {
                path: path,
                line: sp_line_of(s, pos),
                column: sp_col_of(s, pos),
                expected: "command name or escaped character"@,
            },
        )
    } else {
        let c2 = s[pos + 1];
        if !is_letter(c2) {
            Ok((pos + 2, SpecAtom::Escaped(c2)))
        } else {
            let e = sp_letters_end(s, pos + 1);
            let name = s.subrange(pos + 1, e);
            let after = if e < s.len() && s[e] == ' ' {
                e + 1
            } else {
                e
            };
            sp_named(s, pos, clamp_pos(s, pos + 1, after), name, sv, path, chain, fuel)
        }
    }
}

/// A named command folded into its atom, at the specification level.
pub open spec fn sp_named(
    s: Seq<char>,
    pos: int,
    after: int,
    name: Seq<char>,
    sv: Seq<(Seq<char>, Seq<char>)>,
    path: Seq<char>,
    chain: Seq<Seq<char>>,
    fuel: nat,
) -> Result<(int, SpecAtom), PErr>
    decreases fuel, s.len() - clamp_pos(s, 0, after), 2int,
{
    if name == "par"@ {
        Ok((after, SpecAtom::ParagraphEnd))
    } else if name == "textbackslash"@ {
        Ok((after, SpecAtom::NamedSymbol("textbackslash"@)))
    } else if name == "omission"@ {
        Ok((after, SpecAtom::NamedSymbol("omission"@)))
    } else if name == "noindent"@ || name == "newpage"@ {
        Ok((after, SpecAtom::Ignore))
    } else if name == "begin"@ || name == "end"@ {
        sp_env(s, after, name == "begin"@, path)
    } else if name == "include"@ {
        match sp_brace(s, after, path) {
            Ok((p2, fname)) => match sp_include(fname, sv, path, chain, fuel) {
                Ok(a) => Ok((p2, a)),
                Err(er) => Err(er),
            },
            Err(er) => Err(er),
        }
    } else if name == "chapter"@ || name == "section"@ || name == "footnote"@ || name
        == "textit"@ {
        sp_wrapper(s, pos, after, name, sv, path, chain, fuel)
    } else {
        Err(
            PErr::Unsupported {
                kind: name,
                path: path,
                line: sp_line_of(s, pos),
                column: sp_col_of(s, pos),
            },
        )
    }
}

/// An environment delimiter, at the specification level.
pub open spec fn sp_env(s: Seq<char>, after: int, is_begin: bool, path: Seq<char>) -> Result<
    (int, SpecAtom),
    PErr,
> {
    match sp_brace(s, after, path) {
        Ok((p2, env)) => if env == "quotation"@ {
            Ok(
                (
                    p2,
                    if is_begin {
                        SpecAtom::BeginEnvironment(env)
                    } else {
                        SpecAtom::EndEnvironment(env)
                    },
                ),
            )
        } else {
            Err(
                PErr::Unsupported {
                    kind: env,
                    path: path,
                    line: sp_line_of(s, after + 1),
                    column: sp_col_of(s, after + 1),
                },
            )
        },
        Err(er) => Err(er),
    }
}

/// Include expansion, at the specification level. Fuel never runs out on a
/// reachable path (the inclusion chain is bounded by the source table).
pub open spec fn sp_include(
    fname: Seq<char>,
    sv: Seq<(Seq<char>, Seq<char>)>,
    path: Seq<char>,
    chain: Seq<Seq<char>>,
    fuel: nat,
) -> Result<SpecAtom, PErr>
    decreases fuel, 0int, 0int,
{
    let resolved = resolved_include(path, fname);
    if exists|i: int| 0 <= i < chain.len() && chain[i] == resolved {
        Err(PErr::Cycle(chain.push(resolved)))
    } else {
        match sp_find_from(sv, resolved, 0) {
            None => Err(PErr::Io(resolved)),
            Some(text) => if fuel == 0 {
                Err(PErr::Cycle(chain.push(resolved)))
            } else {
                sp_file(text, resolved, sv, chain.push(resolved), (fuel - 1) as nat)
            },
        }
    }
}

/// A command wrapping one required argument, at the specification level.
pub open spec fn sp_wrapper(
    s: Seq<char>,
    pos: int,
    after: int,
    name: Seq<char>,
    sv: Seq<(Seq<char>, Seq<char>)>,
    path: Seq<char>,
    chain: Seq<Seq<char>>,
    fuel: nat,
) -> Result<(int, SpecAtom), PErr>
    decreases fuel, s.len() - clamp_pos(s, 0, after), 1int,
{
    match sp_args(s, clamp_pos(s, 0, after), sv, path, chain, fuel) {
        Ok((p2, args)) => match sp_take_required(args, 0) {
            Some(v) => Ok(
                (
                    p2,
                    if name == "chapter"@ {
                        SpecAtom::StartChapter(Box::new(v))
                    } else if name == "section"@ {
                        SpecAtom::StartSection(Box::new(v))
                    } else if name == "footnote"@ {
                        SpecAtom::Footnote(Box::new(v))
                    } else {
                        SpecAtom::Italic(Box::new(v))
                    },
                ),
            ),
            None => Err(
                PErr::Syntax {
                    path: path,
                    line: sp_line_of(s, after),
                    column: sp_col_of(s, after),
                    expected: "{"@,
                },
            ),
        },
        Err(er) => Err(er),
    }
}

/// A command's argument groups, at the specification level.
pub open spec fn sp_args(
    s: Seq<char>,
    pos: int,
    sv: Seq<(Seq<char>, Seq<char>)>,
    path: Seq<char>,
    chain: Seq<Seq<char>>,
    fuel: nat,
) -> Result<(int, Seq<(bool, SpecAtom)>), PErr>
    decreases fuel, s.len() - pos, 0int,
{
    if pos < 0 || pos >= s.len() || (s[pos] != '{' && s[pos] != '[') {
        Ok((pos, Seq::empty()))
    } else {
        let optional = s[pos] == '[';
        let close = if optional {
            ']'
        } else {
            '}'
        };
        match sp_atoms(s, pos + 1, Some(close), sv, path, chain, fuel) {
            Ok((end, atoms)) => {
                let arg = (optional, sp_collapse(atoms));
                match sp_args(s, clamp_pos(s, pos + 1, end + 1), sv, path, chain, fuel) {
                    Ok((p2, rest)) => Ok((p2, seq![arg] + rest)),
                    Err(er) => Err(er),
                }
            },
            Err(er) => Err(er),
        }
    }
}

/// One whole source file parsed into its collapsed tree, at the
/// specification level.
pub open spec fn sp_file(
    text: Seq<char>,
    path: Seq<char>,
    sv: Seq<(Seq<char>, Seq<char>)>,
    chain: Seq<Seq<char>>,
    fuel: nat,
) -> Result<SpecAtom, PErr>
    decreases fuel, text.len() + 1, 0int,
{
    match sp_atoms(text, 0, None, sv, path, chain, fuel) {
        Ok((_, atoms)) => Ok(sp_collapse(atoms)),
        Err(er) => Err(er),
    }
}

/// A whole book built from the source table, at the specification level:
/// what `parse_book` returns, exactly.
pub open spec fn sp_book(sv: Seq<(Seq<char>, Seq<char>)>, root: Seq<char>) -> Result<
    SpecAtom,
    PErr,
> {
    match sp_find_from(sv, root, 0) {
        None => Err(PErr::Io(root)),
        Some(text) => sp_file(text, root, sv, seq![root], sv.len() as nat),
    }
}

/// The views of a bound argument list.
pub open spec fn args_view(v: Seq<Argument>) -> Seq<(bool, SpecAtom)> {
    Seq::new(v.len(), |i: int| ((v[i].optional, atom_view(v[i].value))))
}

/// A command name is a run of ASCII letters.
pub open spec fn is_letter(c: char) -> bool {
    (97 <= c as u32 && c as u32 <= 122) || (65 <= c as u32 && c as u32 <= 90)
}

/// Executable form of [`is_letter`].
pub fn letter_char(c: char) -> (r: bool)
    ensures
        r == is_letter(c),
{
    let u = c as u32;
    (97 <= u && u <= 122) || (65 <= u && u <= 90)
}

/// One bound command argument: bracket-delimited arguments are optional,
/// brace-delimited ones required; the value is the collapsed contents.
pub struct Argument {
    pub optional: bool,
    pub value: Atom,
}

/// Which errors say what they claim: a missing file is really not among the
/// sources, and a reported inclusion cycle really revisits a path.
pub open spec fn err_classified(e: BuildError, sources: Seq<(String, String)>) -> bool {
    match e {
        BuildError::IoError(p) => !source_names(sources).contains(p@),
        BuildError::IncludeCycle(c) => exists|i: int, j: int|
            0 <= i < j < c@.len() && (#[trigger] c@[i])@ == (#[trigger] c@[j])@,
        _ => true,
    }
}

/// Read a brace-delimited literal name: `{` at `pos`, raw characters to the
/// matching `}`. Returns the position just past the `}` and the name.
fn read_brace_name(input: &Vec<char>, pos: usize, path: &String) -> (r: Result<
    (usize, String),
    BuildError,
>)
    requires
        pos <= input@.len(),
    ensures
        match r {
            Ok((end, nm)) => pos < end <= input@.len() && sp_brace(input@, pos as int, path@)
                == Ok::<_, PErr>((end as int, nm@)),
            Err(e) => e is SyntaxError && sp_brace(input@, pos as int, path@) == Err::<
                (int, Seq<char>),
                _,
            >(err_view(e)),
        },
{
    let n = input.len();
    if pos >= n || input[pos] != '{' {
        let (line, column) = line_col(input, pos);
        return Err(
            BuildError::SyntaxError {
                path: path.clone(),
                line,
                column,
                expected: String::from_str("{"),
            },
        );
    }
    let mut e = pos + 1;
    while e < n && input[e] != '}'
        invariant
            n == input@.len(),
            pos < e <= n,
            sp_close_brace(input@, pos + 1) == sp_close_brace(input@, e as int),
        decreases n - e,
    {
        e = e + 1;
    }
    if e >= n {
        let (line, column) = line_col(input, e);
        return Err(
            BuildError::SyntaxError {
                path: path.clone(),
                line,
                column,
                expected: String::from_str("}"),
            },
        );
    }
    let name = crate::parser::slice_string(input, pos + 1, e);
    Ok((e + 1, name))
}

/// Parse the sibling atoms from `pos` up to the closing delimiter (`closer`),
/// or to the end of input when there is none.
pub fn parse_atoms(
    input: &Vec<char>,
    pos: usize,
    closer: Option<char>,
    sources: &Vec<(String, String)>,
    path: &String,
    chain: &Vec<String>,
    fuel: usize,
) -> (r: Result<(usize, Vec<Atom>), BuildError>)
    requires
        pos <= input@.len(),
        chain_ok(chain@, sources@),
        fuel + chain@.len() >= sources@.len() + 1,
    ensures
        match r {
            Ok((end, atoms)) => pos <= end <= input@.len() && (match closer {
                Some(c) => end < input@.len() && input@[end as int] == c,
                None => end == input@.len(),
            }) && (forall|i: int| 0 <= i < atoms@.len() ==> wf_atom(#[trigger] atoms@[i]))
                && sp_atoms(
                input@,
                pos as int,
                closer,
                sources_view(sources@),
                path@,
                chain_views(chain@),
                fuel as nat,
            ) == Ok::<_, PErr>((end as int, atoms_view(atoms@))),
            Err(e) => err_classified(e, sources@) && sp_atoms(
                input@,
                pos as int,
                closer,
                sources_view(sources@),
                path@,
                chain_views(chain@),
                fuel as nat,
            ) == Err::<(int, Seq<SpecAtom>), _>(err_view(e)),
        },
    decreases fuel, input@.len() - pos, 5int,
{
    let ghost sv = sources_view(sources@);
    let ghost pv = path@;
    let ghost cv = chain_views(chain@);
    let ghost fl = fuel as nat;
    let n = input.len();
    let mut atoms: Vec<Atom> = Vec::new();
    let mut p = pos;
    proof {
        lemma_atoms_view_from(atoms@, 0);
        assert(atoms_view(atoms@) =~= Seq::<SpecAtom>::empty());
        match sp_atoms(input@, p as int, closer, sv, pv, cv, fl) {
            Ok((e2, rest)) => {
                assert(atoms_view(atoms@) + rest =~= rest);
            },
            Err(_) => {},
        }
    }
    while p < n
        invariant
            n == input@.len(),
            pos <= p <= n,
            chain_ok(chain@, sources@),
            fuel + chain@.len() >= sources@.len() + 1,
            sv == sources_view(sources@),
            pv == path@,
            cv == chain_views(chain@),
            fl == fuel as nat,
            forall|i: int| 0 <= i < atoms@.len() ==> wf_atom(#[trigger] atoms@[i]),
            match sp_atoms(input@, p as int, closer, sv, pv, cv, fl) {
                Ok((e2, rest)) => sp_atoms(input@, pos as int, closer, sv, pv, cv, fl) == Ok::<
                    _,
                    PErr,
                >((e2, atoms_view(atoms@) + rest)),
                Err(er) => sp_atoms(input@, pos as int, closer, sv, pv, cv, fl) == Err::<
                    (int, Seq<SpecAtom>),
                    _,
                >(er),
            },
        decreases n - p,
    {
        match closer {
            Some(c) => {
                if input[p] == c {
                    proof {
                        assert(sp_atoms(input@, p as int, closer, sv, pv, cv, fl) == Ok::<
                            _,
                            PErr,
                        >((p as int, Seq::<SpecAtom>::empty())));
                        assert(atoms_view(atoms@) + Seq::<SpecAtom>::empty() =~= atoms_view(
                            atoms@,
                        ));
                    }
                    return Ok((p, atoms));
                }
            },
            None => {},
        }
        let ghost before = atoms_view(atoms@);
        match parse_atom(input, p, closer, sources, path, chain, fuel) {
            Ok((p2, a)) => {
                proof {
                    assert(clamp_pos(input@, p + 1, p2 as int) == p2 as int);
                    lemma_atoms_view_push(atoms@, a);
                    match sp_atoms(input@, p2 as int, closer, sv, pv, cv, fl) {
                        Ok((e2, rest)) => {
                            assert(before + (seq![atom_view(a)] + rest) =~= before.push(
                                atom_view(a),
                            ) + rest);
                        },
                        Err(_) => {},
                    }
                }
                atoms.push(a);
                p = p2;
            },
            Err(e) => {
                return Err(e);
            },
        }
    }
    match closer {
        Some(_) => {
            let (line, column) = line_col(input, p);
            let err = BuildError::SyntaxError {
                path: path.clone(),
                line,
                column,
                expected: String::from_str("closing delimiter"),
            };
            proof {
                assert(err_view(err) =~~= PErr::Syntax {
                    path: pv,
                    line: sp_line_of(input@, p as int),
                    column: sp_col_of(input@, p as int),
                    expected: "closing delimiter"@,
                });
            }
            Err(err)
        },
        None => {
            proof {
                assert(sp_atoms(input@, p as int, closer, sv, pv, cv, fl) == Ok::<_, PErr>(
                    (p as int, Seq::<SpecAtom>::empty()),
                ));
                assert(atoms_view(atoms@) + Seq::<SpecAtom>::empty() =~= atoms_view(atoms@));
            }
            Ok((p, atoms))
        },
    }
}

/// Parse one atom at `pos`: a comment, a command or escape, a line break or
/// paragraph break, a ligature token, or a run of plain text.
pub fn parse_atom(
    input: &Vec<char>,
    pos: usize,
    closer: Option<char>,
    sources: &Vec<(String, String)>,
    path: &String,
    chain: &Vec<String>,
    fuel: usize,
) -> (r: Result<(usize, Atom), BuildError>)
    requires
        pos < input@.len(),
        closer matches Some(c) ==> input@[pos as int] != c,
        chain_ok(chain@, sources@),
        fuel + chain@.len() >= sources@.len() + 1,
    ensures
        match r {
            Ok((end, a)) => pos < end <= input@.len() && wf_atom(a) && sp_atom(
                input@,
                pos as int,
                closer,
                sources_view(sources@),
                path@,
                chain_views(chain@),
                fuel as nat,
            ) == Ok::<_, PErr>((end as int, atom_view(a))),
            Err(e) => err_classified(e, sources@) && sp_atom(
                input@,
                pos as int,
                closer,
                sources_view(sources@),
                path@,
                chain_views(chain@),
                fuel as nat,
            ) == Err::<(int, SpecAtom), _>(err_view(e)),
        },
    decreases fuel, input@.len() - pos, 4int,
{
    let n = input.len();
    let c = input[pos];
    if c == '%' {
        let end = crate::parser::comment(input, pos);
        let res: Result<(usize, Atom), BuildError> = Ok(
            (end, Atom::Comment(crate::parser::slice_string(input, pos + 1, end))),
        );
        proof {
            assert(atom_view(res->Ok_0.1) == SpecAtom::Comment(
                input@.subrange(pos + 1, end as int),
            ));
        }
        res
    } else if c == '\\' {
        parse_command(input, pos, sources, path, chain, fuel)
    } else if c == '\r' || c == '\n' {
        let mut p = pos;
        let mut units: usize = 0;
        while p < n && (input[p] == '\r' || input[p] == '\n')
            invariant
                n == input@.len(),
                pos <= p <= n,
                units <= p,
                p > pos ==> units >= 1,
                sp_nl_run(input@, pos as int).0 == sp_nl_run(input@, p as int).0,
                sp_nl_run(input@, pos as int).1 == units + sp_nl_run(input@, p as int).1,
            decreases n - p,
        {
            if input[p] == '\r' && n - p >= 2 && input[p + 1] == '\n' {
                p = p + 2;
            } else {
                p = p + 1;
            }
            units = units + 1;
        }
        proof {
            assert(sp_nl_run(input@, p as int) == (p as int, 0nat));
            assert(sp_nl_run(input@, pos as int).0 == p as int);
            assert(sp_nl_run(input@, pos as int).1 == units as nat);
        }
        if units >= 2 {
            Ok((p, Atom::ParagraphEnd))
        } else {
            let res: Result<(usize, Atom), BuildError> = Ok(
                (p, Atom::Special(String::from_str("\n"))),
            );
            proof {
                assert(atom_view(res->Ok_0.1) == SpecAtom::Special("\n"@));
            }
            res
        }
    } else if c == '~' {
        let res: Result<(usize, Atom), BuildError> = Ok(
            (pos + 1, Atom::Special(String::from_str("~"))),
        );
        proof {
            assert(atom_view(res->Ok_0.1) == SpecAtom::Special("~"@));
        }
        res
    } else if c == '`' || c == '\'' || c == '-' || c == '$' {
        let (end, tok) = if c == '`' {
            if n - pos >= 2 && input[pos + 1] == '`' {
                (pos + 2, String::from_str("``"))
            } else {
                (pos + 1, String::from_str("`"))
            }
        } else if c == '\'' {
            if n - pos >= 2 && input[pos + 1] == '\'' {
                (pos + 2, String::from_str("''"))
            } else {
                (pos + 1, String::from_str("'"))
            }
        } else if c == '-' {
            if n - pos >= 3 && input[pos + 1] == '-' && input[pos + 2] == '-' {
                (pos + 3, String::from_str("---"))
            } else if n - pos >= 2 && input[pos + 1] == '-' {
                (pos + 2, String::from_str("--"))
            } else {
                (pos + 1, String::from_str("-"))
            }
        } else {
            if n - pos >= 3 && input[pos + 1] == '-' && input[pos + 2] == '$' {
                (pos + 3, String::from_str("$-$"))
            } else {
                (pos + 1, String::from_str("$"))
            }
        };
        proof {
            assert(end as int == sp_token(input@, pos as int).0);
            assert(tok@ == sp_token(input@, pos as int).1);
        }
        match crate::symbols::resolve(tok.as_str()) {
            Some(_) => {
                let ghost tokv = tok@;
                let res: Result<(usize, Atom), BuildError> = Ok((end, Atom::Special(tok)));
                proof {
                    assert(atom_view(res->Ok_0.1) == SpecAtom::Special(tokv));
                }
                res
            },
            None => {
                let ghost tokv = tok@;
                let (line, column) = line_col(input, pos);
                let err = BuildError::UnsupportedConstruct {
                    kind: tok,
                    path: path.clone(),
                    line,
                    column,
                };
                proof {
                    assert(err_view(err) =~~= PErr::Unsupported {
                        kind: tokv,
                        path: path@,
                        line: sp_line_of(input@, pos as int),
                        column: sp_col_of(input@, pos as int),
                    });
                }
                Err(err)
            },
        }
    } else if c == '{' || c == '}' {
        let (line, column) = line_col(input, pos);
        let kind = if c == '{' {
            String::from_str("{")
        } else {
            String::from_str("}")
        };
        let ghost kv = kind@;
        let err = BuildError::UnsupportedConstruct { kind, path: path.clone(), line, column };
        proof {
            assert(err_view(err) =~~= PErr::Unsupported {
                kind: kv,
                path: path@,
                line: sp_line_of(input@, pos as int),
                column: sp_col_of(input@, pos as int),
            });
        }
        Err(err)
    } else {
        let e = crate::parser::text_span(input, pos);
        let end = match closer {
            Some(cl) => {
                if cl == ']' {
                    first_char_before(input, pos, e, ']')
                } else {
                    e
                }
            },
            None => e,
        };
        let res: Result<(usize, Atom), BuildError> = Ok(
            (end, Atom::Text(crate::parser::slice_string(input, pos, end))),
        );
        proof {
            assert(atom_view(res->Ok_0.1) == SpecAtom::Text(
                input@.subrange(pos as int, end as int),
            ));
        }
        res
    }
}

/// The index of the first `c` in `input[pos..e)`, or `e` when there is none.
fn first_char_before(input: &Vec<char>, pos: usize, e: usize, c: char) -> (r: usize)
    requires
        pos <= e <= input@.len(),
        pos < e ==> input@[pos as int] != c,
    ensures
        pos <= r <= e,
        pos < e ==> pos < r,
        r == sp_first_in(input@, pos as int, e as int, c),
        forall|j: int| pos <= j < r ==> input@[j] != c,
{
    if pos >= e {
        return e;
    }
    let mut i = pos + 1;
    while i < e && input[i] != c
        invariant
            pos < i <= e <= input@.len(),
            sp_scan_char(input@, pos + 1, e as int, c) == sp_scan_char(input@, i as int, e as int, c),
            forall|j: int| pos <= j < i ==> input@[j] != c,
        decreases e - i,
    {
        i = i + 1;
    }
    i
}

/// Expand an include directive: resolve the name, guard against a cycle,
/// and parse the included file in place.
fn expand_include(
    fname: &String,
    sources: &Vec<(String, String)>,
    path: &String,
    chain: &Vec<String>,
    fuel: usize,
) -> (r: Result<Atom, BuildError>)
    requires
        chain_ok(chain@, sources@),
        fuel + chain@.len() >= sources@.len() + 1,
    ensures
        match r {
            Ok(a) => wf_atom(a) && sp_include(
                fname@,
                sources_view(sources@),
                path@,
                chain_views(chain@),
                fuel as nat,
            ) == Ok::<_, PErr>(atom_view(a)),
            Err(e) => err_classified(e, sources@) && sp_include(
                fname@,
                sources_view(sources@),
                path@,
                chain_views(chain@),
                fuel as nat,
            ) == Err::<SpecAtom, _>(err_view(e)),
        },
    decreases fuel, 0int, 0int,
{
    let resolved = resolve_include(path.as_str(), fname.as_str());
    if chain_contains(chain, resolved.as_str()) {
        let ghost rv = resolved@;
        let mut cyc = clone_chain(chain);
        cyc.push(resolved);
        proof {
            let i = choose|i: int|
                0 <= i < chain@.len() && (#[trigger] chain@[i])@ == rv;
            assert(cyc@[i]@ == rv);
            assert((cyc@[cyc@.len() - 1])@ == rv);
            assert(0 <= i < cyc@.len() - 1);
            assert(exists|i2: int, j2: int|
                0 <= i2 < j2 < cyc@.len() && (#[trigger] cyc@[i2])@ == (
                #[trigger] cyc@[j2])@);
        }
        let err = BuildError::IncludeCycle(cyc);
        proof {
            assert(err->IncludeCycle_0 == cyc);
            assert(exists|i2: int, j2: int|
                0 <= i2 < j2 < (err->IncludeCycle_0)@.len() && (#[trigger] (
                err->IncludeCycle_0)@[i2])@ == (#[trigger] (err->IncludeCycle_0)@[j2])@);
            assert(err_classified(err, sources@));
            let cv = chain_views(chain@);
            assert(exists|i2: int|
                0 <= i2 < cv.len() && #[trigger] cv[i2] == resolved_include(path@, fname@)) by {
                let i = choose|i: int| 0 <= i < chain@.len() && (#[trigger] chain@[i])@ == rv;
                assert(cv[i] == rv);
            }
            assert(chain_views(cyc@) =~= cv.push(rv));
            assert(err_view(err) =~~= PErr::Cycle(cv.push(resolved_include(path@, fname@))));
        }
        return Err(err);
    }
    match find_source(sources, resolved.as_str()) {
        None => {
            proof {
                reveal(source_names);
                let names = sources@.map_values(|p: (String, String)| p.0@);
                assert forall|x: Seq<char>|
                    names.to_set().contains(x) implies x != resolved@ by {
                    let k = choose|k: int|
                        0 <= k < names.len() && names[k] == x;
                    assert(sources@[k].0@ != resolved@);
                }
            }
            proof {
                assert(!(exists|i2: int|
                    0 <= i2 < chain_views(chain@).len() && #[trigger] chain_views(chain@)[i2]
                        == resolved_include(path@, fname@))) by {
                    assert forall|i2: int| 0 <= i2 < chain@.len() implies #[trigger] chain_views(
                        chain@,
                    )[i2] != resolved_include(path@, fname@) by {
                        assert(chain_views(chain@)[i2] == chain@[i2]@);
                    }
                }
            }
            Err(BuildError::IoError(resolved))
        },
        Some(text) => {
            let rpath = resolved.clone();
            let mut chain2 = clone_chain(chain);
            chain2.push(resolved);
            proof {
                reveal(source_names);
                let cv = chain_views(chain@);
                let cv2 = chain_views(chain2@);
                assert(cv2 =~= cv.push(rpath@));
                assert forall|i: int, j: int|
                    0 <= i < j < cv2.len() implies cv2[i] != cv2[j] by {
                    if j < cv.len() {
                        assert(cv.no_duplicates());
                    } else {
                        assert(cv2[j] == rpath@);
                        assert(cv2[i] == chain@[i]@);
                    }
                }
                let k = choose|k: int|
                    0 <= k < sources@.len() && (#[trigger] sources@[k]).0@ == rpath@
                        && sources@[k].1 == *text;
                let names = sources@.map_values(|p: (String, String)| p.0@);
                assert(names[k] == rpath@);
                assert(source_names(sources@).contains(rpath@));
                assert forall|i: int|
                    0 <= i < chain2@.len() implies source_names(sources@).contains(
                    #[trigger] chain_views(chain2@)[i],
                ) by {
                    if i < chain@.len() {
                        assert(chain_views(chain2@)[i] == chain_views(chain@)[i]);
                        assert(source_names(sources@).contains(
                            chain_views(chain@)[i],
                        ));
                    }
                }
                lemma_chain_len(chain@, sources@);
                assert(!(exists|i2: int|
                    0 <= i2 < chain_views(chain@).len() && #[trigger] chain_views(chain@)[i2]
                        == resolved_include(path@, fname@))) by {
                    assert forall|i2: int| 0 <= i2 < chain@.len() implies #[trigger] chain_views(
                        chain@,
                    )[i2] != resolved_include(path@, fname@) by {
                        assert(chain_views(chain@)[i2] == chain@[i2]@);
                    }
                }
                assert(chain_views(chain2@) =~= chain_views(chain@).push(
                    resolved_include(path@, fname@),
                ));
            }
            parse_file(sources, &chain2, fuel - 1, &rpath, text)
        },
    }
}

/// An escaped character is well formed on its own, and its view is itself.
proof fn lemma_escaped_wf(c: char)
    ensures
        wf_atom(Atom::Escaped(c)),
        atom_view(Atom::Escaped(c)) == SpecAtom::Escaped(c),
{
}

/// Parse a backslash form: an escaped character, or a named command with its
/// arguments, folded into its atom.
#[verifier::spinoff_prover]
fn parse_command(
    input: &Vec<char>,
    pos: usize,
    sources: &Vec<(String, String)>,
    path: &String,
    chain: &Vec<String>,
    fuel: usize,
) -> (r: Result<(usize, Atom), BuildError>)
    requires
        pos < input@.len(),
        chain_ok(chain@, sources@),
        fuel + chain@.len() >= sources@.len() + 1,
    ensures
        match r {
            Ok((end, a)) => pos < end <= input@.len() && wf_atom(a) && sp_command(
                input@,
                pos as int,
                sources_view(sources@),
                path@,
                chain_views(chain@),
                fuel as nat,
            ) == Ok::<_, PErr>((end as int, atom_view(a))),
            Err(e) => err_classified(e, sources@) && sp_command(
                input@,
                pos as int,
                sources_view(sources@),
                path@,
                chain_views(chain@),
                fuel as nat,
            ) == Err::<(int, SpecAtom), _>(err_view(e)),
        },
    decreases fuel, input@.len() - pos, 3int,
{
    let n = input.len();
    if n - pos < 2 {
        let (line, column) = line_col(input, pos);
        let err = BuildError::SyntaxError {
            path: path.clone(),
            line,
            column,
            expected: String::from_str("command name or escaped character"),
        };
        proof {
            assert(err_view(err) =~~= PErr::Syntax {
                path: path@,
                line: sp_line_of(input@, pos as int),
                column: sp_col_of(input@, pos as int),
                expected: "command name or escaped character"@,
            });
        }
        return Err(err);
    }
    let c2 = input[pos + 1];
    if !letter_char(c2) {
        let res: Result<(usize, Atom), BuildError> = Ok((pos + 2, Atom::Escaped(c2)));
        proof {
            lemma_escaped_wf(c2);
            assert(res->Ok_0.1 == Atom::Escaped(c2));
            assert(wf_atom(res->Ok_0.1));
            assert(atom_view(res->Ok_0.1) == SpecAtom::Escaped(c2));
        }
        return res;
    }
    let mut e = pos + 1;
    while e < n && letter_char(input[e])
        invariant
            n == input@.len(),
            pos < e <= n,
            sp_letters_end(input@, pos + 1) == sp_letters_end(input@, e as int),
        decreases n - e,
    {
        e = e + 1;
    }
    proof {
        assert(sp_letters_end(input@, pos + 1) == e as int);
        assert(clamp_pos(input@, pos + 1, pos + 1) == pos + 1);
        assert(clamp_pos(input@, pos + 1, e as int) == e as int);
    }
    let name = crate::parser::slice_string(input, pos + 1, e);
    let mut after = e;
    if after < n && input[after] == ' ' {
        after = after + 1;
    }
    proof {
        assert(clamp_pos(input@, pos + 1, after as int) == after as int);
    }
    named_command(input, pos, after, &name, sources, path, chain, fuel)
}

/// Fold a named command into its atom: a zero-argument symbol or directive,
/// an environment delimiter, an include, or a structural wrapper.
fn named_command(
    input: &Vec<char>,
    pos: usize,
    after: usize,
    name: &String,
    sources: &Vec<(String, String)>,
    path: &String,
    chain: &Vec<String>,
    fuel: usize,
) -> (r: Result<(usize, Atom), BuildError>)
    requires
        pos < after <= input@.len(),
        chain_ok(chain@, sources@),
        fuel + chain@.len() >= sources@.len() + 1,
    ensures
        match r {
            Ok((end, a)) => pos < end <= input@.len() && wf_atom(a) && sp_named(
                input@,
                pos as int,
                after as int,
                name@,
                sources_view(sources@),
                path@,
                chain_views(chain@),
                fuel as nat,
            ) == Ok::<_, PErr>((end as int, atom_view(a))),
            Err(e) => err_classified(e, sources@) && sp_named(
                input@,
                pos as int,
                after as int,
                name@,
                sources_view(sources@),
                path@,
                chain_views(chain@),
                fuel as nat,
            ) == Err::<(int, SpecAtom), _>(err_view(e)),
        },
    decreases fuel, input@.len() - pos, 2int,
{
    if str_eq(name.as_str(), "par") {
        Ok((after, Atom::ParagraphEnd))
    } else if str_eq(name.as_str(), "textbackslash") {
        Ok((after, Atom::NamedSymbol(String::from_str("textbackslash"))))
    } else if str_eq(name.as_str(), "omission") {
        Ok((after, Atom::NamedSymbol(String::from_str("omission"))))
    } else if str_eq(name.as_str(), "noindent") || str_eq(name.as_str(), "newpage") {
        Ok((after, Atom::Ignore))
    } else if str_eq(name.as_str(), "begin") || str_eq(name.as_str(), "end") {
        environment_delimiter(input, pos, after, str_eq(name.as_str(), "begin"), path)
    } else if str_eq(name.as_str(), "include") {
        match read_brace_name(input, after, path) {
            Ok((p2, fname)) => {
                match expand_include(&fname, sources, path, chain, fuel) {
                    Ok(sub) => Ok((p2, sub)),
                    Err(err) => Err(err),
                }
            },
            Err(err) => Err(err),
        }
    } else if str_eq(name.as_str(), "chapter") || str_eq(name.as_str(), "section") || str_eq(
        name.as_str(),
        "footnote",
    ) || str_eq(name.as_str(), "textit") {
        wrapper_command(input, pos, after, name, sources, path, chain, fuel)
    } else {
        let (line, column) = line_col(input, pos);
        let err = BuildError::UnsupportedConstruct {
            kind: name.clone(),
            path: path.clone(),
            line,
            column,
        };
        proof {
            assert(err_view(err) =~~= PErr::Unsupported {
                kind: name@,
                path: path@,
                line: sp_line_of(input@, pos as int),
                column: sp_col_of(input@, pos as int),
            });
        }
        Err(err)
    }
}

/// Fold an environment delimiter: only the quotation block is recognized.
fn environment_delimiter(
    input: &Vec<char>,
    pos: usize,
    after: usize,
    is_begin: bool,
    path: &String,
) -> (r: Result<(usize, Atom), BuildError>)
    requires
        pos < after <= input@.len(),
    ensures
        match r {
            Ok((end, a)) => pos < end <= input@.len() && wf_atom(a) && sp_env(
                input@,
                after as int,
                is_begin,
                path@,
            ) == Ok::<_, PErr>((end as int, atom_view(a))),
            Err(e) => (e is SyntaxError || e is UnsupportedConstruct) && sp_env(
                input@,
                after as int,
                is_begin,
                path@,
            ) == Err::<(int, SpecAtom), _>(err_view(e)),
        },
{
    match read_brace_name(input, after, path) {
        Ok((p2, env)) => {
            let ghost envv = env@;
            if str_eq(env.as_str(), "quotation") {
                let res: Result<(usize, Atom), BuildError> = if is_begin {
                    Ok((p2, Atom::BeginEnvironment(env)))
                } else {
                    Ok((p2, Atom::EndEnvironment(env)))
                };
                proof {
                    assert(atom_view(res->Ok_0.1) == if is_begin {
                        SpecAtom::BeginEnvironment(envv)
                    } else {
                        SpecAtom::EndEnvironment(envv)
                    });
                }
                res
            } else {
                let (line, column) = line_col(input, after + 1);
                let err = BuildError::UnsupportedConstruct {
                    kind: env,
                    path: path.clone(),
                    line,
                    column,
                };
                proof {
                    assert(err_view(err) =~~= PErr::Unsupported {
                        kind: envv,
                        path: path@,
                        line: sp_line_of(input@, after + 1),
                        column: sp_col_of(input@, after + 1),
                    });
                }
                Err(err)
            }
        },
        Err(err) => Err(err),
    }
}

/// Fold a command that wraps exactly one required argument's value into its
/// structural atom.
fn wrapper_command(
    input: &Vec<char>,
    pos: usize,
    after: usize,
    name: &String,
    sources: &Vec<(String, String)>,
    path: &String,
    chain: &Vec<String>,
    fuel: usize,
) -> (r: Result<(usize, Atom), BuildError>)
    requires
        pos < after <= input@.len(),
        chain_ok(chain@, sources@),
        fuel + chain@.len() >= sources@.len() + 1,
    ensures
        match r {
            Ok((end, a)) => pos < end <= input@.len() && wf_atom(a) && sp_wrapper(
                input@,
                pos as int,
                after as int,
                name@,
                sources_view(sources@),
                path@,
                chain_views(chain@),
                fuel as nat,
            ) == Ok::<_, PErr>((end as int, atom_view(a))),
            Err(e) => err_classified(e, sources@) && sp_wrapper(
                input@,
                pos as int,
                after as int,
                name@,
                sources_view(sources@),
                path@,
                chain_views(chain@),
                fuel as nat,
            ) == Err::<(int, SpecAtom), _>(err_view(e)),
        },
    decreases fuel, input@.len() - pos, 1int,
{
    proof {
        assert(clamp_pos(input@, 0, after as int) == after as int);
    }
    match parse_args(input, after, sources, path, chain, fuel) {
        Ok((p2, args)) => {
            match first_required(&args) {
                Some(i) => {
                    let ghost gv = atom_view(args@[i as int].value);
                    let mut rest = args;
                    let arg = rest.remove(i);
                    let value = arg.value;
                    proof {
                        assert(atom_view(value) == gv);
                    }
                    let a = if str_eq(name.as_str(), "chapter") {
                        Atom::StartChapter(Box::new(value))
                    } else if str_eq(name.as_str(), "section") {
                        Atom::StartSection(Box::new(value))
                    } else if str_eq(name.as_str(), "footnote") {
                        Atom::Footnote(Box::new(value))
                    } else {
                        Atom::Italic(Box::new(value))
                    };
                    proof {
                        assert(wf_atom(a));
                        assert(atom_view(a) == if name@ == "chapter"@ {
                            SpecAtom::StartChapter(Box::new(gv))
                        } else if name@ == "section"@ {
                            SpecAtom::StartSection(Box::new(gv))
                        } else if name@ == "footnote"@ {
                            SpecAtom::Footnote(Box::new(gv))
                        } else {
                            SpecAtom::Italic(Box::new(gv))
                        });
                    }
                    let res: Result<(usize, Atom), BuildError> = Ok((p2, a));
                    proof {
                        assert(sp_wrapper(
                            input@,
                            pos as int,
                            after as int,
                            name@,
                            sources_view(sources@),
                            path@,
                            chain_views(chain@),
                            fuel as nat,
                        ) == Ok::<_, PErr>((p2 as int, atom_view(res->Ok_0.1))));
                    }
                    res
                },
                None => {
                    let (line, column) = line_col(input, after);
                    let err = BuildError::SyntaxError {
                        path: path.clone(),
                        line,
                        column,
                        expected: String::from_str("{"),
                    };
                    proof {
                        assert(err_view(err) =~~= PErr::Syntax {
                            path: path@,
                            line: sp_line_of(input@, after as int),
                            column: sp_col_of(input@, after as int),
                            expected: "{"@,
                        });
                    }
                    Err(err)
                },
            }
        },
        Err(err) => Err(err),
    }
}

/// The index of the first required (brace-delimited) argument, if any.
fn first_required(args: &Vec<Argument>) -> (r: Option<usize>)
    ensures
        match r {
            Some(i) => i < args@.len() && !args@[i as int].optional && sp_take_required(
                args_view(args@),
                0,
            ) == Some(atom_view(args@[i as int].value)),
            None => sp_take_required(args_view(args@), 0) is None,
        },
{
    let ghost av = args_view(args@);
    let mut i: usize = 0;
    while i < args.len()
        invariant
            i <= args@.len(),
            av == args_view(args@),
            sp_take_required(av, 0) == sp_take_required(av, i as int),
        decreases args@.len() - i,
    {
        if !args[i].optional {
            proof {
                assert(!av[i as int].0);
                assert(sp_take_required(av, i as int) == Some(av[i as int].1));
            }
            return Some(i);
        }
        proof {
            assert(av[i as int].0);
        }
        i = i + 1;
    }
    proof {
        assert(sp_take_required(av, av.len() as int) is None);
    }
    None
}

/// Bind a command's argument list: bracket groups are optional arguments,
/// brace groups required ones, in source order, each collapsed.
fn parse_args(
    input: &Vec<char>,
    pos: usize,
    sources: &Vec<(String, String)>,
    path: &String,
    chain: &Vec<String>,
    fuel: usize,
) -> (r: Result<(usize, Vec<Argument>), BuildError>)
    requires
        pos <= input@.len(),
        chain_ok(chain@, sources@),
        fuel + chain@.len() >= sources@.len() + 1,
    ensures
        match r {
            Ok((end, args)) => pos <= end <= input@.len() && (forall|i: int|
                0 <= i < args@.len() ==> wf_atom((#[trigger] args@[i]).value)) && sp_args(
                input@,
                pos as int,
                sources_view(sources@),
                path@,
                chain_views(chain@),
                fuel as nat,
            ) == Ok::<_, PErr>((end as int, args_view(args@))),
            Err(e) => err_classified(e, sources@) && sp_args(
                input@,
                pos as int,
                sources_view(sources@),
                path@,
                chain_views(chain@),
                fuel as nat,
            ) == Err::<(int, Seq<(bool, SpecAtom)>), _>(err_view(e)),
        },
    decreases fuel, input@.len() - pos, 0int,
{
    let ghost sv = sources_view(sources@);
    let ghost pv = path@;
    let ghost cv = chain_views(chain@);
    let ghost fl = fuel as nat;
    let n = input.len();
    let mut args: Vec<Argument> = Vec::new();
    let mut p = pos;
    proof {
        assert(args_view(args@) =~= Seq::<(bool, SpecAtom)>::empty());
        match sp_args(input@, p as int, sv, pv, cv, fl) {
            Ok((e2, rest)) => {
                assert(args_view(args@) + rest =~= rest);
            },
            Err(_) => {},
        }
    }
    while p < n && (input[p] == '{' || input[p] == '[')
        invariant
            n == input@.len(),
            pos <= p <= n,
            chain_ok(chain@, sources@),
            fuel + chain@.len() >= sources@.len() + 1,
            sv == sources_view(sources@),
            pv == path@,
            cv == chain_views(chain@),
            fl == fuel as nat,
            forall|i: int| 0 <= i < args@.len() ==> wf_atom((#[trigger] args@[i]).value),
            match sp_args(input@, p as int, sv, pv, cv, fl) {
                Ok((e2, rest)) => sp_args(input@, pos as int, sv, pv, cv, fl) == Ok::<_, PErr>(
                    (e2, args_view(args@) + rest),
                ),
                Err(er) => sp_args(input@, pos as int, sv, pv, cv, fl) == Err::<
                    (int, Seq<(bool, SpecAtom)>),
                    _,
                >(er),
            },
        decreases n - p,
    {
        let optional = input[p] == '[';
        let close = if optional {
            ']'
        } else {
            '}'
        };
        let ghost before = args_view(args@);
        match parse_atoms(input, p + 1, Some(close), sources, path, chain, fuel) {
            Ok((end, atoms)) => {
                let ghost avv = atoms@;
                let value = crate::collapse(atoms);
                proof {
                    lemma_atoms_view_from(avv, 0);
                    if avv.len() == 1 {
                        assert(value == avv[0]);
                        assert(atom_view(value) == atoms_view(avv)[0]);
                    } else {
                        assert(atoms_view(avv).len() != 1);
                    }
                    assert(atom_view(value) == sp_collapse(atoms_view(avv)));
                }
                args.push(Argument { optional, value });
                proof {
                    assert(args_view(args@) =~= before.push((optional, atom_view(value))));
                    assert(clamp_pos(input@, p + 1, end + 1) == end + 1);
                    match sp_args(input@, end + 1, sv, pv, cv, fl) {
                        Ok((e2, rest)) => {
                            assert(before + (seq![(optional, atom_view(value))] + rest)
                                =~= before.push((optional, atom_view(value))) + rest);
                        },
                        Err(_) => {},
                    }
                }
                p = end + 1;
            },
            Err(e) => {
                return Err(e);
            },
        }
    }
    proof {
        assert(sp_args(input@, p as int, sv, pv, cv, fl) == Ok::<_, PErr>(
            (p as int, Seq::<(bool, SpecAtom)>::empty()),
        ));
        assert(args_view(args@) + Seq::<(bool, SpecAtom)>::empty() =~= args_view(args@));
    }
    Ok((p, args))
}

/// Parse one whole source file into its (collapsed) tree.
pub fn parse_file(
    sources: &Vec<(String, String)>,
    chain: &Vec<String>,
    fuel: usize,
    path: &String,
    text: &String,
) -> (r: Result<Atom, BuildError>)
    requires
        chain_ok(chain@, sources@),
        fuel + chain@.len() >= sources@.len() + 1,
    ensures
        match r {
            Ok(a) => wf_atom(a) && sp_file(
                text@,
                path@,
                sources_view(sources@),
                chain_views(chain@),
                fuel as nat,
            ) == Ok::<_, PErr>(atom_view(a)),
            Err(e) => err_classified(e, sources@) && sp_file(
                text@,
                path@,
                sources_view(sources@),
                chain_views(chain@),
                fuel as nat,
            ) == Err::<SpecAtom, _>(err_view(e)),
        },
    decreases fuel, text@.len() + 1, 0int,
{
    let cs = str_to_chars(text.as_str());
    match parse_atoms(&cs, 0, None, sources, path, chain, fuel) {
        Ok((_, atoms)) => {
            let ghost avv = atoms@;
            let value = crate::collapse(atoms);
            proof {
                lemma_atoms_view_from(avv, 0);
                if avv.len() == 1 {
                    assert(value == avv[0]);
                    assert(atom_view(value) == atoms_view(avv)[0]);
                } else {
                    assert(atoms_view(avv).len() != 1);
                }
                assert(atom_view(value) == sp_collapse(atoms_view(avv)));
            }
            let res: Result<Atom, BuildError> = Ok(value);
            proof {
                assert(atom_view(res->Ok_0) == sp_collapse(atoms_view(avv)));
            }
            res
        },
        Err(e) => Err(e),
    }
}

/// Build a whole book from the source table, starting at the root file:
/// parse it, recursively splice in included files, and collapse the result.
/// A file not in the table is reported as `IoError` naming it; an inclusion
/// path that revisits a file fails as `IncludeCycle`.
pub fn parse_book(sources: &Vec<(String, String)>, root: &str) -> (r: Result<Book, BuildError>)
    ensures
        match r {
            Ok(b) => wf_atom(b.ast) && sp_book(sources_view(sources@), root@) == Ok::<_, PErr>(
                atom_view(b.ast),
            ),
            Err(e) => err_classified(e, sources@) && sp_book(sources_view(sources@), root@)
                == Err::<SpecAtom, _>(err_view(e)),
        },
{
    match find_source(sources, root) {
        None => {
            proof {
                reveal(source_names);
                let names = sources@.map_values(|p: (String, String)| p.0@);
                assert forall|x: Seq<char>| names.to_set().contains(x) implies x != root@ by {
                    let k = choose|k: int| 0 <= k < names.len() && names[k] == x;
                    assert(sources@[k].0@ != root@);
                }
            }
            Err(BuildError::IoError(String::from_str(root)))
        },
        Some(text) => {
            let rootpath = String::from_str(root);
            let mut chain: Vec<String> = Vec::new();
            chain.push(rootpath.clone());
            proof {
                reveal(source_names);
                let cv = chain_views(chain@);
                assert(cv =~= seq![root@]);
                assert(cv.no_duplicates());
                let k = choose|k: int|
                    0 <= k < sources@.len() && (#[trigger] sources@[k]).0@ == root@ && sources@[k].1
                        == *text;
                let names = sources@.map_values(|p: (String, String)| p.0@);
                assert(names[k] == root@);
                assert(source_names(sources@).contains(root@));
                assert(sources_view(sources@).len() == sources@.len());
            }
            let fuel = sources.len();
            match parse_file(sources, &chain, fuel, &rootpath, text) {
                Ok(ast) => {
                    let res: Result<Book, BuildError> = Ok(Book { ast });
                    proof {
                        assert(sp_book(sources_view(sources@), root@) == Ok::<_, PErr>(
                            atom_view(res->Ok_0.ast),
                        ));
                    }
                    res
                },
                Err(e) => Err(e),
            }
        },
    }
}

/// Copy an inclusion chain.
pub fn clone_chain(chain: &Vec<String>) -> (r: Vec<String>)
    ensures
        r@ == chain@,
{
    let mut r: Vec<String> = Vec::new();
    let mut i: usize = 0;
    while i < chain.len()
        invariant
            i <= chain@.len(),
            r@ == chain@.subrange(0, i as int),
        decreases chain@.len() - i,
    {
        r.push(chain[i].clone());
        i = i + 1;
        assert(r@ =~= chain@.subrange(0, i as int));
    }
    assert(r@ =~= chain@);
    r
}

} // verus!
