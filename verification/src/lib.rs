//! Converter for manuscripts in a constrained, LaTeX-like markup dialect.
//!
//! The crate parses source text into a typed document tree ([`Atom`]),
//! resolving file inclusion, command binding and ligature tokens, and then
//! serializes the tree into per-chapter HTML fragments with a verified
//! paragraph state machine.

use vstd::prelude::*;

pub mod builder;
pub mod escape;
pub mod generator;
pub mod laws;
pub mod parser;
pub mod symbols;
pub mod textutil;

verus! {

/// One typed unit of parsed document structure.
///
/// A `List` node never has exactly one child: a sequence that collapses to a
/// single element is represented by that element alone (see [`collapse`]).
#[derive(Debug, PartialEq)]
pub enum Atom {
    /// Ordered sequence of sibling atoms.
    List(Vec<Atom>),
    /// Author annotation, never rendered.
    Comment(String),
    /// Literal prose.
    Text(String),
    /// A character escaped in the source to suppress its special meaning.
    Escaped(char),
    /// A recognized markup token (ligature, dash, space, line break).
    Special(String),
    /// A named symbol such as a literal backslash or an omission marker.
    NamedSymbol(String),
    /// Begin a new top-level division; the payload is the title.
    StartChapter(Box<Atom>),
    /// Begin a subdivision within the current division; the payload is the title.
    StartSection(Box<Atom>),
    /// An annotation anchored at a point in text; the payload is the body.
    Footnote(Box<Atom>),
    /// An inline emphasis run.
    Italic(Box<Atom>),
    /// Open a named block construct such as a quotation.
    BeginEnvironment(String),
    /// Close a named block construct.
    EndEnvironment(String),
    /// Explicit paragraph boundary marker.
    ParagraphEnd,
    /// A recognized but semantically void directive.
    Ignore,
}

/// A whole manuscript: exactly one document tree root.
#[derive(Debug, PartialEq)]
pub struct Book {
    pub ast: Atom,
}

/// Failure while serializing a document tree: an atom with no defined
/// rendering, such as an unrecognized environment name or token.
#[derive(Debug, PartialEq)]
pub enum RenderError {
    UnsupportedConstruct { kind: String },
}

/// Failure while building a document tree from source files.
#[derive(Debug, PartialEq)]
pub enum BuildError {
    /// A source or include file was not among the readable sources.
    IoError(String),
    /// The grammar rejected the input at the given place.
    SyntaxError { path: String, line: usize, column: usize, expected: String },
    /// A recognized construct with no defined tree mapping: an unknown
    /// command, environment name or token.
    UnsupportedConstruct { kind: String, path: String, line: usize, column: usize },
    /// The inclusion path revisited a file already being expanded; the
    /// payload is that path, ending with the repeated file.
    IncludeCycle(Vec<String>),
}

/// The tree invariant: no `List` node anywhere has exactly one child.
pub open spec fn wf_atom(a: Atom) -> bool
    decreases a,
{
    match a {
        Atom::List(l) => l@.len() != 1 && (forall|i: int|
            0 <= i < l@.len() ==> wf_atom(#[trigger] l@[i])),
        Atom::StartChapter(t) => wf_atom(*t),
        Atom::StartSection(t) => wf_atom(*t),
        Atom::Footnote(b) => wf_atom(*b),
        Atom::Italic(c) => wf_atom(*c),
        _ => true,
    }
}

/// Fold a converted sibling sequence into a single atom.
///
/// A sequence of exactly one element is represented identically to that
/// element alone; anything else becomes a `List` (the empty document is the
/// empty `List`).
pub fn collapse(atoms: Vec<Atom>) -> (r: Atom)
    ensures
        atoms@.len() == 1 ==> r == atoms@[0],
        atoms@.len() != 1 ==> r == Atom::List(atoms),
        (forall|i: int| 0 <= i < atoms@.len() ==> wf_atom(#[trigger] atoms@[i])) ==> wf_atom(r),
{
    let ghost orig = atoms@;
    let mut v = atoms;
    if v.len() == 1 {
        let only = v.pop().unwrap();
        assert(only == orig[0]);
        only
    } else {
        let r = Atom::List(v);
        proof {
            if forall|i: int| 0 <= i < orig.len() ==> wf_atom(#[trigger] orig[i]) {
                assert(wf_atom(r));
            }
        }
        r
    }
}

} // verus!
