//! The renderer: a depth-first walk over a document tree that serializes it
//! into per-chapter HTML buffers.
//!
//! The walk is specified by an explicit state machine ([`RState`] and
//! [`st_render`]): an ordered list of output buffers, a global paragraph-id
//! counter, a footnote counter, and the paragraph flags. Each output buffer
//! is modelled as a sequence of [`Piece`]s — fixed tag pieces and escaped
//! literal runs — so that what a buffer may contain can be stated and proved.

use vstd::prelude::*;
use vstd::string::StringExecFns;
use crate::Atom;
use crate::Book;
use crate::RenderError;
use crate::escape::digits_of;
use crate::escape::escape_text;
use crate::escape::escape_chars;
use crate::escape::u32_digits;
use crate::symbols::symbol_spec;
use crate::symbols::resolve;
use crate::textutil::chars_to_string;
use crate::textutil::str_to_chars;
use crate::textutil::str_eq;

verus! {

/// One unit of output: a fixed tag of the renderer's vocabulary, or a run of
/// literal text (stored unescaped; its rendered form is its escaped form).
pub ghost enum Piece {
    OpenPara(nat),
    ClosePara,
    OpenH1,
    CloseH1,
    OpenH2,
    CloseH2,
    OpenItalic,
    CloseItalic,
    OpenQuote,
    CloseQuote,
    Lit(Seq<char>),
}

/// The text a piece contributes to its buffer.
pub open spec fn piece_text(p: Piece) -> Seq<char> {
    match p {
        Piece::OpenPara(id) => "<p id="@ + digits_of(id) + ">"@,
        Piece::ClosePara => "</p>\n\n"@,
        Piece::OpenH1 => "<h1>"@,
        Piece::CloseH1 => "</h1>\n\n"@,
        Piece::OpenH2 => "<h2>"@,
        Piece::CloseH2 => "</h2>\n\n"@,
        Piece::OpenItalic => "<i>"@,
        Piece::CloseItalic => "</i>\n"@,
        Piece::OpenQuote => "<q>\n\n"@,
        Piece::CloseQuote => "</q>\n\n"@,
        Piece::Lit(t) => escape_text(t),
    }
}

/// The full text of one buffer.
pub open spec fn frag_text(ps: Seq<Piece>) -> Seq<char>
    decreases ps.len(),
{
    if ps.len() == 0 {
        Seq::empty()
    } else {
        frag_text(ps.drop_last()) + piece_text(ps.last())
    }
}

/// The renderer's state: the buffers (as piece sequences), the paragraph ids
/// assigned so far in order, the two counters, and the paragraph flags.
#[verifier::ext_equal]
pub ghost struct RState {
    pub bufs: Seq<Seq<Piece>>,
    pub ids: Seq<nat>,
    pub pcount: nat,
    pub fcount: nat,
    pub in_para: bool,
    pub can_open: bool,
}

/// The state a render run starts in: no buffer yet, nothing numbered, no open
/// paragraph, and a paragraph permitted to start.
pub open spec fn st_init() -> RState {
    RState {
        bufs: Seq::empty(),
        ids: Seq::empty(),
        pcount: 0,
        fcount: 0,
        in_para: false,
        can_open: true,
    }
}

/// Append one piece to the current buffer, opening the first buffer if none
/// exists yet.
pub open spec fn st_emit(s: RState, p: Piece) -> RState {
    let bufs = if s.bufs.len() == 0 {
        seq![seq![p]]
    } else {
        s.bufs.update(s.bufs.len() - 1, s.bufs.last().push(p))
    };
    RState { bufs: bufs, ..s }
}

/// On first content after `NoParagraph` with opening permitted: assign the
/// next id, emit the opening tag, move to `InParagraph`.
pub open spec fn st_open_para(s: RState) -> RState {
    if s.can_open && !s.in_para {
        let s1 = st_emit(s, Piece::OpenPara(s.pcount));
        RState {
            ids: s1.ids.push(s.pcount),
            pcount: s.pcount + 1,
            in_para: true,
            can_open: false,
            ..s1
        }
    } else {
        s
    }
}

/// At a structural boundary: emit the closing tag if a paragraph is open and
/// permit a new one.
pub open spec fn st_close_para(s: RState) -> RState {
    if s.in_para {
        RState { in_para: false, can_open: true, ..st_emit(s, Piece::ClosePara) }
    } else {
        s
    }
}

/// Emit a run of literal text, opening a paragraph first if one is due.
pub open spec fn st_text(s: RState, t: Seq<char>) -> RState {
    st_emit(st_open_para(s), Piece::Lit(t))
}

/// The number of tree nodes; bounds how far either counter can advance while
/// the subtree renders.
pub open spec fn atom_weight(a: Atom) -> nat
    decreases a, 0int, 0int,
{
    match a {
        Atom::List(l) => 1 + weight_list_from(l@, 0),
        Atom::StartChapter(t) => 1 + atom_weight(*t),
        Atom::StartSection(t) => 1 + atom_weight(*t),
        Atom::Footnote(b) => 1 + atom_weight(*b),
        Atom::Italic(c) => 1 + atom_weight(*c),
        _ => 1,
    }
}

/// The combined weight of the elements of `l` from index `i` on.
pub open spec fn weight_list_from(l: Seq<Atom>, i: nat) -> nat
    decreases l, 1int, l.len() - i,
{
    if i >= l.len() {
        0
    } else {
        atom_weight(l[i as int]) + weight_list_from(l, i + 1)
    }
}

/// A chapter start: close any open paragraph, open a brand-new buffer, and
/// emit the heading with paragraph opening disabled while the title renders.
pub open spec fn st_start_chapter(title: Atom, s: RState) -> Result<RState, (Seq<char>, RState)>
    decreases title, 1int, 0int,
{
    let s1 = st_close_para(s);
    let s2 = RState { bufs: s1.bufs.push(Seq::empty()), can_open: false, ..s1 };
    let s3 = st_emit(s2, Piece::OpenH1);
    match st_render(title, s3) {
        Ok(s4) => Ok(RState { can_open: true, ..st_emit(s4, Piece::CloseH1) }),
        Err(e) => Err(e),
    }
}

/// A section start: as a chapter start, but without a new buffer.
pub open spec fn st_start_section(title: Atom, s: RState) -> Result<RState, (Seq<char>, RState)>
    decreases title, 1int, 0int,
{
    let s1 = st_close_para(s);
    let s2 = RState { can_open: false, ..s1 };
    let s3 = st_emit(s2, Piece::OpenH2);
    match st_render(title, s3) {
        Ok(s4) => Ok(RState { can_open: true, ..st_emit(s4, Piece::CloseH2) }),
        Err(e) => Err(e),
    }
}

/// An inline emphasis run: open a paragraph if one is due for the
/// surrounding text, suppress paragraph opening while the contents render,
/// then restore the enclosing paragraph state.
pub open spec fn st_italic(contents: Atom, s: RState) -> Result<RState, (Seq<char>, RState)>
    decreases contents, 1int, 0int,
{
    let s1 = st_open_para(s);
    let s2 = st_emit(s1, Piece::OpenItalic);
    let inner = RState { in_para: false, can_open: false, ..s2 };
    match st_render(contents, inner) {
        Ok(s3) => Ok(
            RState {
                in_para: s1.in_para,
                can_open: s1.can_open,
                ..st_emit(s3, Piece::CloseItalic)
            },
        ),
        Err(e) => Err(e),
    }
}

/// The renderer's transition for one atom. An atom with no defined
/// rendering fails, naming the unresolved token or environment and carrying
/// the state as it stood, so a run's output on failure is fixed too.
pub open spec fn st_render(a: Atom, s: RState) -> Result<RState, (Seq<char>, RState)>
    decreases a, 0int, 0int,
{
    match a {
        Atom::List(l) => st_render_list_from(l@, 0, s),
        Atom::Comment(_) => Ok(s),
        Atom::Ignore => Ok(s),
        Atom::Text(t) => Ok(st_text(s, t@)),
        Atom::Escaped(c) => Ok(st_text(s, seq![c])),
        Atom::Special(tok) => match symbol_spec(tok@) {
            Some(out) => Ok(st_text(s, out)),
            None => Err((tok@, s)),
        },
        Atom::NamedSymbol(tok) => match symbol_spec(tok@) {
            Some(out) => Ok(st_text(s, out)),
            None => Err((tok@, s)),
        },
        Atom::StartChapter(title) => st_start_chapter(*title, s),
        Atom::StartSection(title) => st_start_section(*title, s),
        Atom::Footnote(_) => Ok(RState { fcount: s.fcount + 1, ..s }),
        Atom::Italic(c) => st_italic(*c, s),
        Atom::BeginEnvironment(n) => if n@ == "quotation"@ {
            Ok(st_emit(st_close_para(s), Piece::OpenQuote))
        } else {
            Err((n@, s))
        },
        Atom::EndEnvironment(n) => if n@ == "quotation"@ {
            Ok(st_emit(st_close_para(s), Piece::CloseQuote))
        } else {
            Err((n@, s))
        },
        Atom::ParagraphEnd => Ok(st_close_para(s)),
    }
}

/// Render the elements of `l` from index `i` on, in source order.
pub open spec fn st_render_list_from(l: Seq<Atom>, i: nat, s: RState) -> Result<
    RState,
    (Seq<char>, RState),
>
    decreases l, 1int, l.len() - i,
{
    if i >= l.len() {
        Ok(s)
    } else {
        match st_render(l[i as int], s) {
            Ok(s1) => st_render_list_from(l, i + 1, s1),
            Err(e) => Err(e),
        }
    }
}

/// A whole run: render the tree from the initial state, then close any open
/// paragraph; the result is the ordered buffer contents, or the name of the
/// construct that has no rendering.
pub open spec fn spec_write_book(a: Atom) -> Result<Seq<Seq<Piece>>, Seq<char>> {
    match st_render(a, st_init()) {
        Ok(s) => Ok(st_close_para(s).bufs),
        Err(e) => Err(e.0),
    }
}

/// While a subtree renders, each counter advances by at most the subtree's
/// weight, and neither ever goes backward.
pub proof fn lemma_st_render_counts(a: Atom, s: RState)
    ensures
        match st_render(a, s) {
            Ok(s2) => s.pcount <= s2.pcount <= s.pcount + atom_weight(a) && s.fcount <= s2.fcount
                <= s.fcount + atom_weight(a),
            Err(_) => true,
        },
    decreases a, 0int, 0int,
{
    match a {
        Atom::List(l) => {
            lemma_st_render_list_counts(l@, 0, s);
        },
        Atom::StartChapter(title) => {
            let s1 = st_close_para(s);
            let s2 = RState { bufs: s1.bufs.push(Seq::empty()), can_open: false, ..s1 };
            let s3 = st_emit(s2, Piece::OpenH1);
            lemma_st_render_counts(*title, s3);
        },
        Atom::StartSection(title) => {
            let s1 = st_close_para(s);
            let s2 = RState { can_open: false, ..s1 };
            let s3 = st_emit(s2, Piece::OpenH2);
            lemma_st_render_counts(*title, s3);
        },
        Atom::Italic(c) => {
            let s1 = st_open_para(s);
            let s2 = st_emit(s1, Piece::OpenItalic);
            let inner = RState { in_para: false, can_open: false, ..s2 };
            lemma_st_render_counts(*c, inner);
        },
        _ => {},
    }
}

/// Counter bound for a sibling run, from index `i` on.
pub proof fn lemma_st_render_list_counts(l: Seq<Atom>, i: nat, s: RState)
    ensures
        match st_render_list_from(l, i, s) {
            Ok(s2) => s.pcount <= s2.pcount <= s.pcount + weight_list_from(l, i) && s.fcount
                <= s2.fcount <= s.fcount + weight_list_from(l, i),
            Err(_) => true,
        },
    decreases l, 1int, l.len() - i,
{
    if i < l.len() {
        lemma_st_render_counts(l[i as int], s);
        match st_render(l[i as int], s) {
            Ok(s1) => {
                lemma_st_render_list_counts(l, i + 1, s1);
            },
            Err(_) => {},
        }
    }
}

/// The renderer's mutable context: the output buffers and the paragraph
/// state machine, together with the ghost piece decomposition of each buffer
/// and the ids assigned so far.
pub struct Context {
    pub buffers: Vec<String>,
    pub paragraph_count: u32,
    pub footnote_count: u32,
    pub is_paragraph: bool,
    pub can_start_paragraph: bool,
    pub pieces: Ghost<Seq<Seq<Piece>>>,
    pub ids: Ghost<Seq<nat>>,
}

impl View for Context {
    type V = RState;

    open spec fn view(&self) -> RState {
        RState {
            bufs: self.pieces@,
            ids: self.ids@,
            pcount: self.paragraph_count as nat,
            fcount: self.footnote_count as nat,
            in_para: self.is_paragraph,
            can_open: self.can_start_paragraph,
        }
    }
}

impl Context {
    /// Each buffer's text is exactly the text of its pieces.
    pub open spec fn wf(self) -> bool {
        self.buffers@.len() == self.pieces@.len() && (forall|k: int|
            0 <= k < self.buffers@.len() ==> self.buffers@[k]@ == frag_text(self.pieces@[k]))
    }

    pub fn new() -> (c: Context)
        ensures
            c.wf(),
            c@ == st_init(),
    {
        let c = Context {
            buffers: Vec::new(),
            paragraph_count: 0,
            footnote_count: 0,
            is_paragraph: false,
            can_start_paragraph: true,
            pieces: Ghost(Seq::empty()),
            ids: Ghost(Seq::empty()),
        };
        proof {
            assert(c@ =~~= st_init());
        }
        c
    }

    /// Append one already-rendered piece of text to the current buffer,
    /// opening the first buffer if none exists yet.
    fn write_raw(&mut self, text: &str, piece: Ghost<Piece>)
        requires
            old(self).wf(),
            text@ == piece_text(piece@),
        ensures
            final(self).wf(),
            final(self)@ == st_emit(old(self)@, piece@),
    {
        if self.buffers.len() == 0 {
            self.buffers.push(String::new());
            let ghost first: Seq<Seq<Piece>> = seq![Seq::<Piece>::empty()];
            self.pieces = Ghost(first);
            proof {
                assert(frag_text(Seq::<Piece>::empty()) =~= Seq::<char>::empty());
                assert(self.wf());
            }
        }
        let ghost mid = self@;
        let n = self.buffers.len() - 1;
        let mut buf = self.buffers.pop().unwrap();
        buf.append(text);
        self.buffers.push(buf);
        self.pieces = Ghost(mid.bufs.update(n as int, mid.bufs[n as int].push(piece@)));
        proof {
            let ps = mid.bufs[n as int];
            assert(ps.push(piece@).drop_last() =~= ps);
            assert(frag_text(ps.push(piece@)) == frag_text(ps) + piece_text(piece@));
            assert(self.buffers@ =~= old(self).buffers@.update(
                n as int,
                self.buffers@[n as int],
            ) || self.buffers@.len() == 1);
            assert forall|k: int| 0 <= k < self.buffers@.len() implies self.buffers@[k]@
                == frag_text(self.pieces@[k]) by {
                if k == n {
                    assert(self.buffers@[k]@ == frag_text(ps) + piece_text(piece@));
                }
            }
            assert(st_emit(old(self)@, piece@).bufs =~~= self.pieces@);
            assert(self@ =~~= st_emit(old(self)@, piece@));
        }
    }

    /// Escape and append a run of literal text to the current buffer.
    fn write_text(&mut self, text: &str)
        requires
            old(self).wf(),
        ensures
            final(self).wf(),
            final(self)@ == st_emit(old(self)@, Piece::Lit(text@)),
    {
        let cs = str_to_chars(text);
        let esc = escape_chars(&cs);
        let s = chars_to_string(&esc);
        self.write_raw(s.as_str(), Ghost(Piece::Lit(text@)));
    }

    /// Open a paragraph when none is open and opening is permitted: assign
    /// the next id and emit the opening tag carrying it.
    pub fn open_paragraph_if_necessary(&mut self)
        requires
            old(self).wf(),
            old(self)@.pcount < u32::MAX as nat,
        ensures
            final(self).wf(),
            final(self)@ == st_open_para(old(self)@),
    {
        if self.can_start_paragraph && !self.is_paragraph {
            let id = self.paragraph_count;
            let digits = u32_digits(id);
            let mut tag = String::from_str("<p id=");
            tag.append(chars_to_string(&digits).as_str());
            tag.append(">");
            self.write_raw(tag.as_str(), Ghost(Piece::OpenPara(id as nat)));
            self.paragraph_count = id + 1;
            self.ids = Ghost(self.ids@.push(id as nat));
            self.is_paragraph = true;
            self.can_start_paragraph = false;
            proof {
                assert(self@ =~~= st_open_para(old(self)@));
            }
        }
    }

    /// Close the open paragraph, if any, and permit a new one.
    pub fn close_paragraph_if_necessary(&mut self)
        requires
            old(self).wf(),
        ensures
            final(self).wf(),
            final(self)@ == st_close_para(old(self)@),
    {
        if self.is_paragraph {
            self.write_raw("</p>\n\n", Ghost(Piece::ClosePara));
            self.is_paragraph = false;
            self.can_start_paragraph = true;
            proof {
                assert(self@ =~~= st_close_para(old(self)@));
            }
        }
    }

    /// Begin a new top-level division.
    pub fn start_chapter(&mut self, title: &Atom) -> (r: Result<(), RenderError>)
        requires
            old(self).wf(),
            old(self)@.pcount + atom_weight(*title) <= u32::MAX as nat,
            old(self)@.fcount + atom_weight(*title) <= u32::MAX as nat,
        ensures
            final(self).wf(),
            match st_start_chapter(*title, old(self)@) {
                Ok(s2) => r is Ok && final(self)@ == s2,
                Err((k, s2)) => r matches Err(RenderError::UnsupportedConstruct { kind })
                    && kind@ == k && final(self)@ == s2,
            },
        decreases *title, 1int,
    {
        let ghost s0 = old(self)@;
        self.close_paragraph_if_necessary();
        self.buffers.push(String::new());
        self.pieces = Ghost(self.pieces@.push(Seq::<Piece>::empty()));
        self.can_start_paragraph = false;
        proof {
            let s1 = st_close_para(s0);
            let s2 = RState { bufs: s1.bufs.push(Seq::empty()), can_open: false, ..s1 };
            assert(frag_text(Seq::<Piece>::empty()) =~= Seq::<char>::empty());
            assert(self.wf());
            assert(self@ =~~= s2);
        }
        self.write_raw("<h1>", Ghost(Piece::OpenH1));
        match self.write(title) {
            Ok(()) => {},
            Err(e) => {
                return Err(e);
            },
        }
        self.write_raw("</h1>\n\n", Ghost(Piece::CloseH1));
        self.can_start_paragraph = true;
        proof {
            assert(st_start_chapter(*title, s0) == Ok::<RState, (Seq<char>, RState)>(self@)) by {
                assert(self@ =~~= st_start_chapter(*title, s0)->Ok_0);
            }
        }
        Ok(())
    }

    /// Begin a subdivision within the current division.
    pub fn start_section(&mut self, title: &Atom) -> (r: Result<(), RenderError>)
        requires
            old(self).wf(),
            old(self)@.pcount + atom_weight(*title) <= u32::MAX as nat,
            old(self)@.fcount + atom_weight(*title) <= u32::MAX as nat,
        ensures
            final(self).wf(),
            match st_start_section(*title, old(self)@) {
                Ok(s2) => r is Ok && final(self)@ == s2,
                Err((k, s2)) => r matches Err(RenderError::UnsupportedConstruct { kind })
                    && kind@ == k && final(self)@ == s2,
            },
        decreases *title, 1int,
    {
        let ghost s0 = old(self)@;
        self.close_paragraph_if_necessary();
        self.can_start_paragraph = false;
        proof {
            let s1 = st_close_para(s0);
            let s2 = RState { can_open: false, ..s1 };
            assert(self@ =~~= s2);
        }
        self.write_raw("<h2>", Ghost(Piece::OpenH2));
        match self.write(title) {
            Ok(()) => {},
            Err(e) => {
                return Err(e);
            },
        }
        self.write_raw("</h2>\n\n", Ghost(Piece::CloseH2));
        self.can_start_paragraph = true;
        proof {
            assert(st_start_section(*title, s0) == Ok::<RState, (Seq<char>, RState)>(self@)) by {
                assert(self@ =~~= st_start_section(*title, s0)->Ok_0);
            }
        }
        Ok(())
    }

    /// Serialize one atom, depth first, in source order.
    pub fn write(&mut self, atom: &Atom) -> (r: Result<(), RenderError>)
        requires
            old(self).wf(),
            old(self)@.pcount + atom_weight(*atom) <= u32::MAX as nat,
            old(self)@.fcount + atom_weight(*atom) <= u32::MAX as nat,
        ensures
            final(self).wf(),
            match st_render(*atom, old(self)@) {
                Ok(s2) => r is Ok && final(self)@ == s2,
                Err((k, s2)) => r matches Err(RenderError::UnsupportedConstruct { kind })
                    && kind@ == k && final(self)@ == s2,
            },
        decreases *atom, 0int,
    {
        match atom {
            Atom::List(list) => {
                let ghost st0 = self@;
                let mut i: usize = 0;
                while i < list.len()
                    invariant
                        self.wf(),
                        i <= list@.len(),
                        st0 == old(self)@,
                        *atom == Atom::List(*list),
                        st_render_list_from(list@, 0, st0) == st_render_list_from(
                            list@,
                            i as nat,
                            self@,
                        ),
                        self@.pcount + weight_list_from(list@, i as nat) <= u32::MAX as nat,
                        self@.fcount + weight_list_from(list@, i as nat) <= u32::MAX as nat,
                    decreases list@.len() - i,
                {
                    let ghost before = self@;
                    proof {
                        assert(*atom == Atom::List(*list));
                        assert(decreases_to!(Atom::List(*list) => *list));
                        assert(decreases_to!(*atom => *list));
                        assert(decreases_to!(*list => list@));
                        assert(decreases_to!(list@ => list@[i as int]));
                        assert(decreases_to!(*atom => list@[i as int]));
                    }
                    match self.write(&list[i]) {
                        Ok(()) => {},
                        Err(e) => {
                            proof {
                                assert(st0 == old(self)@);
                                assert(st_render(*atom, old(self)@) == st_render_list_from(
                                    list@,
                                    0,
                                    old(self)@,
                                ));
                                assert(st_render_list_from(list@, 0, st0)
                                    == st_render_list_from(list@, i as nat, before));
                            }
                            return Err(e);
                        },
                    }
                    proof {
                        lemma_st_render_counts(list@[i as int], before);
                    }
                    i = i + 1;
                }
                proof {
                    assert(st_render_list_from(list@, i as nat, self@) == Ok::<
                        RState,
                        (Seq<char>, RState),
                    >(self@));
                    assert(st_render(*atom, old(self)@) == Ok::<RState, (Seq<char>, RState)>(
                        self@,
                    ));
                }
                Ok(())
            },
            Atom::Comment(_) => Ok(()),
            Atom::Ignore => Ok(()),
            Atom::Text(text) => {
                self.open_paragraph_if_necessary();
                self.write_text(text.as_str());
                Ok(())
            },
            Atom::Escaped(character) => {
                let mut one: Vec<char> = Vec::new();
                one.push(*character);
                let s = chars_to_string(&one);
                assert(s@ =~= seq![*character]);
                self.open_paragraph_if_necessary();
                self.write_text(s.as_str());
                Ok(())
            },
            Atom::Special(symbol) => self.write_symbol(symbol),
            Atom::NamedSymbol(symbol) => self.write_symbol(symbol),
            Atom::StartChapter(title) => self.start_chapter(title),
            Atom::StartSection(title) => self.start_section(title),
            Atom::Footnote(_) => {
                // The body is numbered but not emitted: an id is allocated so
                // that anchors stay stable if deferred rendering is added.
                self.footnote_count = self.footnote_count + 1;
                proof {
                    assert(self@ =~~= RState { fcount: old(self)@.fcount + 1, ..old(self)@ });
                }
                Ok(())
            },
            Atom::Italic(contents) => {
                self.open_paragraph_if_necessary();
                let ghost s1 = self@;
                self.write_raw("<i>", Ghost(Piece::OpenItalic));
                let saved_in = self.is_paragraph;
                let saved_can = self.can_start_paragraph;
                self.is_paragraph = false;
                self.can_start_paragraph = false;
                proof {
                    assert(self@ =~~= RState {
                        in_para: false,
                        can_open: false,
                        ..st_emit(s1, Piece::OpenItalic)
                    });
                }
                match self.write(contents) {
                    Ok(()) => {},
                    Err(e) => {
                        return Err(e);
                    },
                }
                self.write_raw("</i>\n", Ghost(Piece::CloseItalic));
                self.is_paragraph = saved_in;
                self.can_start_paragraph = saved_can;
                proof {
                    assert(st_italic(**contents, old(self)@) == Ok::<RState, (Seq<char>, RState)>(
                        self@,
                    )) by {
                        assert(self@ =~~= st_italic(**contents, old(self)@)->Ok_0);
                    }
                }
                Ok(())
            },
            Atom::BeginEnvironment(env) => {
                if str_eq(env.as_str(), "quotation") {
                    self.close_paragraph_if_necessary();
                    self.write_raw("<q>\n\n", Ghost(Piece::OpenQuote));
                    Ok(())
                } else {
                    Err(RenderError::UnsupportedConstruct { kind: env.clone() })
                }
            },
            Atom::EndEnvironment(env) => {
                if str_eq(env.as_str(), "quotation") {
                    self.close_paragraph_if_necessary();
                    self.write_raw("</q>\n\n", Ghost(Piece::CloseQuote));
                    Ok(())
                } else {
                    Err(RenderError::UnsupportedConstruct { kind: env.clone() })
                }
            },
            Atom::ParagraphEnd => {
                self.close_paragraph_if_necessary();
                Ok(())
            },
        }
    }

    /// Emit the output text of one recognized token; an unknown token is an
    /// unsupported construct.
    fn write_symbol(&mut self, symbol: &String) -> (r: Result<(), RenderError>)
        requires
            old(self).wf(),
            old(self)@.pcount < u32::MAX as nat,
        ensures
            final(self).wf(),
            match symbol_spec(symbol@) {
                Some(out) => r is Ok && final(self)@ == st_text(old(self)@, out),
                None => r matches Err(RenderError::UnsupportedConstruct { kind }) && kind@
                    == symbol@ && final(self)@ == old(self)@,
            },
    {
        match resolve(symbol.as_str()) {
            Some(text) => {
                self.open_paragraph_if_necessary();
                self.write_text(text.as_str());
                Ok(())
            },
            None => Err(RenderError::UnsupportedConstruct { kind: symbol.clone() }),
        }
    }
}

/// Serialize a whole book: one finished string per chapter-like division, in
/// chapter order, as given by the render state machine.
pub fn write_book(book: &Book) -> (r: Result<Vec<String>, RenderError>)
    requires
        atom_weight(book.ast) <= u32::MAX as nat,
    ensures
        match spec_write_book(book.ast) {
            Ok(bufs) => r matches Ok(out) && out@.len() == bufs.len() && (forall|k: int|
                0 <= k < bufs.len() ==> out@[k]@ == frag_text(bufs[k])),
            Err(kind) => r matches Err(RenderError::UnsupportedConstruct { kind: kd }) && kd@
                == kind,
        },
{
    let mut ctx = Context::new();
    match ctx.write(&book.ast) {
        Ok(()) => {},
        Err(e) => {
            return Err(e);
        },
    }
    ctx.close_paragraph_if_necessary();
    Ok(ctx.buffers)
}

} // verus!
