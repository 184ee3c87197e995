//! Laws of the renderer, proved over the render state machine: what the
//! paragraph ids look like, and what a finished buffer may contain.

use vstd::prelude::*;
use crate::Atom;
use crate::escape::amps_are_entities;
use crate::escape::entity_at;
use crate::escape::lemma_escape_amps;
use crate::escape::lemma_escape_no_angle;
use crate::escape::digits_of;
use crate::escape::is_ascii_digit;
use crate::escape::lemma_digits_plain;
use crate::escape::no_angle;
use crate::generator::Piece;
use crate::generator::RState;
use crate::generator::frag_text;
use crate::generator::piece_text;
use crate::generator::st_init;
use crate::generator::st_render;
use crate::generator::st_render_list_from;
use crate::generator::spec_write_book;
use crate::symbols::symbol_spec;

verus! {

/// The ids assigned so far are exactly `0, 1, ..., pcount - 1`, in order.
pub open spec fn ids_wf(s: RState) -> bool {
    s.ids.len() == s.pcount && (forall|i: int| 0 <= i < s.ids.len() ==> s.ids[i] == i as nat)
}

/// Rendering any atom preserves the id ledger: ids already assigned stay,
/// and new ones continue the count.
pub proof fn lemma_render_ids(a: Atom, s: RState)
    requires
        ids_wf(s),
    ensures
        match st_render(a, s) {
            Ok(s2) => ids_wf(s2) && s.ids.is_prefix_of(s2.ids),
            Err(_) => true,
        },
    decreases a, 0int, 0int,
{
    match a {
        Atom::List(l) => {
            lemma_render_ids_list(l@, 0, s);
        },
        Atom::StartChapter(title) => {
            let s3 = chapter_pre(s);
            lemma_render_ids(*title, s3);
        },
        Atom::StartSection(title) => {
            let s3 = section_pre(s);
            lemma_render_ids(*title, s3);
        },
        Atom::Italic(c) => {
            let inner = italic_pre(s);
            lemma_render_ids(*c, inner);
        },
        _ => {},
    }
}

/// The state in which a chapter title starts rendering.
pub open spec fn chapter_pre(s: RState) -> RState {
    let s1 = crate::generator::st_close_para(s);
    let s2 = RState { bufs: s1.bufs.push(Seq::empty()), can_open: false, ..s1 };
    crate::generator::st_emit(s2, Piece::OpenH1)
}

/// The state in which a section title starts rendering.
pub open spec fn section_pre(s: RState) -> RState {
    let s1 = crate::generator::st_close_para(s);
    let s2 = RState { can_open: false, ..s1 };
    crate::generator::st_emit(s2, Piece::OpenH2)
}

/// The state in which an emphasis run's contents start rendering.
pub open spec fn italic_pre(s: RState) -> RState {
    let s1 = crate::generator::st_open_para(s);
    let s2 = crate::generator::st_emit(s1, Piece::OpenItalic);
    RState { in_para: false, can_open: false, ..s2 }
}

/// Id ledger preservation for a sibling run.
pub proof fn lemma_render_ids_list(l: Seq<Atom>, i: nat, s: RState)
    requires
        ids_wf(s),
    ensures
        match st_render_list_from(l, i, s) {
            Ok(s2) => ids_wf(s2) && s.ids.is_prefix_of(s2.ids),
            Err(_) => true,
        },
    decreases l, 1int, l.len() - i,
{
    if i < l.len() {
        lemma_render_ids(l[i as int], s);
        match st_render(l[i as int], s) {
            Ok(s1) => {
                lemma_render_ids_list(l, i + 1, s1);
            },
            Err(_) => {},
        }
    }
}

/// Law: paragraph ids are strictly increasing and globally unique across the
/// whole book, including across chapter boundaries: a full render assigns
/// exactly the ids `0, 1, ..., n - 1`, in document order, and never resets.
pub proof fn lemma_paragraph_ids_strictly_increasing(a: Atom)
    ensures
        match st_render(a, st_init()) {
            Ok(s2) => s2.ids.len() == s2.pcount && (forall|i: int, j: int|
                0 <= i < j < s2.ids.len() ==> s2.ids[i] < s2.ids[j]) && (forall|i: int, j: int|
                0 <= i < s2.ids.len() && 0 <= j < s2.ids.len() && i != j ==> s2.ids[i]
                    != s2.ids[j]),
            Err(_) => true,
        },
{
    lemma_render_ids(a, st_init());
}

/// No tag of the renderer's fixed vocabulary contains an ampersand.
pub proof fn lemma_piece_no_amp(p: Piece)
    requires
        !(p is Lit),
    ensures
        forall|i: int| 0 <= i < piece_text(p).len() ==> piece_text(p)[i] != '&',
{
    reveal_strlit("<p id=");
    reveal_strlit(">");
    reveal_strlit("</p>\n\n");
    reveal_strlit("<h1>");
    reveal_strlit("</h1>\n\n");
    reveal_strlit("<h2>");
    reveal_strlit("</h2>\n\n");
    reveal_strlit("<i>");
    reveal_strlit("</i>\n");
    reveal_strlit("<q>\n\n");
    reveal_strlit("</q>\n\n");
    match p {
        Piece::OpenPara(id) => {
            lemma_digits_plain(id);
        },
        _ => {},
    }
}

/// Ampersand discipline is preserved under concatenation: entities complete
/// within each part stay complete in the whole.
pub proof fn lemma_amps_concat(a: Seq<char>, b: Seq<char>)
    requires
        amps_are_entities(a),
        amps_are_entities(b),
    ensures
        amps_are_entities(a + b),
{
    let s = a + b;
    assert forall|i: int| 0 <= i < s.len() && s[i] == '&' implies entity_at(s, i) by {
        if i < a.len() {
            assert(a[i] == '&');
            assert(entity_at(a, i));
            if i + 5 <= a.len() && a.subrange(i, i + 5) == seq!['&', 'a', 'm', 'p', ';'] {
                assert(s.subrange(i, i + 5) =~= a.subrange(i, i + 5));
            } else if i + 4 <= a.len() && a.subrange(i, i + 4) == seq!['&', 'l', 't', ';'] {
                assert(s.subrange(i, i + 4) =~= a.subrange(i, i + 4));
            } else if i + 4 <= a.len() && a.subrange(i, i + 4) == seq!['&', 'g', 't', ';'] {
                assert(s.subrange(i, i + 4) =~= a.subrange(i, i + 4));
            } else {
                assert(s.subrange(i, i + 6) =~= a.subrange(i, i + 6));
            }
        } else {
            let j = i - a.len();
            assert(b[j] == '&');
            assert(entity_at(b, j));
            if j + 5 <= b.len() && b.subrange(j, j + 5) == seq!['&', 'a', 'm', 'p', ';'] {
                assert(s.subrange(i, i + 5) =~= b.subrange(j, j + 5));
            } else if j + 4 <= b.len() && b.subrange(j, j + 4) == seq!['&', 'l', 't', ';'] {
                assert(s.subrange(i, i + 4) =~= b.subrange(j, j + 4));
            } else if j + 4 <= b.len() && b.subrange(j, j + 4) == seq!['&', 'g', 't', ';'] {
                assert(s.subrange(i, i + 4) =~= b.subrange(j, j + 4));
            } else {
                assert(s.subrange(i, i + 6) =~= b.subrange(j, j + 6));
            }
        }
    }
}

/// Law: rendering never emits a raw `&`, `<` or `>` outside the fixed tag
/// vocabulary. In a whole buffer, every ampersand begins a complete entity;
/// and every literal run (all text that comes from the manuscript) contains
/// no angle bracket at all, so angle brackets occur only inside the fixed
/// tags the renderer itself inserts.
pub proof fn lemma_buffer_amps_confined(ps: Seq<Piece>)
    ensures
        amps_are_entities(frag_text(ps)),
        forall|j: int| 0 <= j < ps.len() && ps[j] is Lit ==> no_angle(piece_text(ps[j])),
    decreases ps.len(),
{
    assert forall|j: int| 0 <= j < ps.len() && ps[j] is Lit implies no_angle(
        piece_text(ps[j]),
    ) by {
        let t = ps[j]->Lit_0;
        lemma_escape_no_angle(t);
    }
    if ps.len() == 0 {
        assert(amps_are_entities(frag_text(ps)));
    } else {
        lemma_buffer_amps_confined(ps.drop_last());
        let p = ps.last();
        let e = piece_text(p);
        if p is Lit {
            lemma_escape_amps(p->Lit_0);
        } else {
            lemma_piece_no_amp(p);
            assert(amps_are_entities(e));
        }
        lemma_amps_concat(frag_text(ps.drop_last()), e);
    }
}

/// The markup law applied to a whole book: every finished buffer keeps the
/// ampersand discipline, and all manuscript text in it is angle-bracket free.
pub proof fn lemma_book_amps_confined(a: Atom)
    ensures
        match spec_write_book(a) {
            Ok(bufs) => forall|k: int|
                0 <= k < bufs.len() ==> amps_are_entities(frag_text(#[trigger] bufs[k])),
            Err(_) => true,
        },
{
    match spec_write_book(a) {
        Ok(bufs) => {
            assert forall|k: int| 0 <= k < bufs.len() implies amps_are_entities(
                frag_text(#[trigger] bufs[k]),
            ) by {
                lemma_buffer_amps_confined(bufs[k]);
            }
        },
        Err(_) => {},
    }
}

} // verus!

verus! {

/// Pieces that mark a chapter, section or quotation boundary.
pub open spec fn is_boundary_piece(p: Piece) -> bool {
    p == Piece::OpenH1 || p == Piece::CloseH1 || p == Piece::OpenH2 || p == Piece::CloseH2 || p
        == Piece::OpenQuote || p == Piece::CloseQuote
}

/// Pieces that neither mark a boundary nor open or close a paragraph.
pub open spec fn is_plain_piece(p: Piece) -> bool {
    !is_boundary_piece(p) && !(p is OpenPara) && !(p is ClosePara)
}

/// Whether a paragraph tag is open after these pieces.
pub open spec fn para_open_after(ps: Seq<Piece>) -> bool
    decreases ps.len(),
{
    if ps.len() == 0 {
        false
    } else if ps.last() is OpenPara {
        true
    } else if ps.last() is ClosePara {
        false
    } else {
        para_open_after(ps.drop_last())
    }
}

/// Every boundary piece in the buffer stands where no paragraph is open.
pub open spec fn boundaries_closed(ps: Seq<Piece>) -> bool {
    forall|i: int|
        0 <= i < ps.len() && is_boundary_piece(#[trigger] ps[i]) ==> !para_open_after(
            ps.take(i),
        )
}

/// How appending one piece moves the scan state and keeps the buffer clean.
pub proof fn lemma_push_scan(ps: Seq<Piece>, p: Piece)
    ensures
        para_open_after(ps.push(p)) == if p is OpenPara {
            true
        } else if p is ClosePara {
            false
        } else {
            para_open_after(ps)
        },
        boundaries_closed(ps) && (is_boundary_piece(p) ==> !para_open_after(ps))
            ==> boundaries_closed(ps.push(p)),
{
    let q = ps.push(p);
    assert(q.drop_last() =~= ps);
    assert(q.last() == p);
    if boundaries_closed(ps) && (is_boundary_piece(p) ==> !para_open_after(ps)) {
        assert forall|i: int| 0 <= i < q.len() && is_boundary_piece(#[trigger] q[i])
            implies !para_open_after(q.take(i)) by {
            if i < ps.len() {
                assert(q[i] == ps[i]);
                assert(q.take(i) =~= ps.take(i));
            } else {
                assert(q[i] == p);
                assert(q.take(i) =~= ps);
            }
        }
    }
}

/// The paragraph-scan invariant the renderer maintains between atoms.
pub open spec fn p3_inv(s: RState) -> bool {
    (forall|k: int| 0 <= k < s.bufs.len() ==> boundaries_closed(#[trigger] s.bufs[k])) && (
    s.bufs.len() == 0 ==> !s.in_para) && (s.bufs.len() > 0 ==> para_open_after(s.bufs.last())
        == s.in_para)
}

/// No chapter, section or environment boundary anywhere in the subtree.
pub open spec fn boundary_free(a: Atom) -> bool
    decreases a, 0int, 0int,
{
    match a {
        Atom::List(l) => forall|i: int| 0 <= i < l@.len() ==> boundary_free(#[trigger] l@[i]),
        Atom::StartChapter(_) => false,
        Atom::StartSection(_) => false,
        Atom::BeginEnvironment(_) => false,
        Atom::EndEnvironment(_) => false,
        Atom::Italic(c) => boundary_free(*c),
        _ => true,
    }
}

/// Inline runs and heading titles carry no structural boundaries.
pub open spec fn inline_clean(a: Atom) -> bool
    decreases a, 0int, 0int,
{
    match a {
        Atom::List(l) => forall|i: int| 0 <= i < l@.len() ==> inline_clean(#[trigger] l@[i]),
        Atom::StartChapter(t) => boundary_free(*t),
        Atom::StartSection(t) => boundary_free(*t),
        Atom::Italic(c) => boundary_free(*c),
        _ => true,
    }
}

/// While paragraph opening is suppressed, boundary-free content appends only
/// plain pieces: buffers stay clean, and the scan state does not move.
pub proof fn lemma_p3_inline(a: Atom, s: RState)
    requires
        !s.in_para,
        !s.can_open,
        boundary_free(a),
        forall|k: int| 0 <= k < s.bufs.len() ==> boundaries_closed(#[trigger] s.bufs[k]),
    ensures
        match st_render(a, s) {
            Ok(s2) => !s2.in_para && !s2.can_open && (forall|k: int|
                0 <= k < s2.bufs.len() ==> boundaries_closed(#[trigger] s2.bufs[k])) && (
            s.bufs.len() > 0 ==> s2.bufs.len() == s.bufs.len() && para_open_after(s2.bufs.last())
                == para_open_after(s.bufs.last())) && (s.bufs.len() == 0 ==> s2.bufs.len() <= 1 && (
            s2.bufs.len() == 1 ==> !para_open_after(s2.bufs.last()))),
            Err(_) => true,
        },
    decreases a, 0int, 0int,
{
    match a {
        Atom::List(l) => {
            lemma_p3_inline_list(l@, 0, s);
        },
        Atom::Text(t) => {
            lemma_emit_plain(s, Piece::Lit(t@));
        },
        Atom::Escaped(c) => {
            lemma_emit_plain(s, Piece::Lit(seq![c]));
        },
        Atom::Special(tok) => {
            match symbol_spec(tok@) {
                Some(out) => {
                    lemma_emit_plain(s, Piece::Lit(out));
                },
                None => {},
            }
        },
        Atom::NamedSymbol(tok) => {
            match symbol_spec(tok@) {
                Some(out) => {
                    lemma_emit_plain(s, Piece::Lit(out));
                },
                None => {},
            }
        },
        Atom::Italic(c) => {
            let s2 = crate::generator::st_emit(s, Piece::OpenItalic);
            lemma_emit_plain(s, Piece::OpenItalic);
            let inner = RState { in_para: false, can_open: false, ..s2 };
            lemma_p3_inline(*c, inner);
            match st_render(*c, inner) {
                Ok(s3) => {
                    lemma_emit_plain_general(s3, Piece::CloseItalic);
                },
                Err(_) => {},
            }
        },
        _ => {},
    }
}

/// [`lemma_p3_inline`], over a sibling run.
pub proof fn lemma_p3_inline_list(l: Seq<Atom>, i: nat, s: RState)
    requires
        !s.in_para,
        !s.can_open,
        forall|j: int| 0 <= j < l.len() ==> boundary_free(#[trigger] l[j]),
        forall|k: int| 0 <= k < s.bufs.len() ==> boundaries_closed(#[trigger] s.bufs[k]),
    ensures
        match st_render_list_from(l, i, s) {
            Ok(s2) => !s2.in_para && !s2.can_open && (forall|k: int|
                0 <= k < s2.bufs.len() ==> boundaries_closed(#[trigger] s2.bufs[k])) && (
            s.bufs.len() > 0 ==> s2.bufs.len() == s.bufs.len() && para_open_after(s2.bufs.last())
                == para_open_after(s.bufs.last())) && (s.bufs.len() == 0 ==> s2.bufs.len() <= 1 && (
            s2.bufs.len() == 1 ==> !para_open_after(s2.bufs.last()))),
            Err(_) => true,
        },
    decreases l, 1int, l.len() - i,
{
    if i < l.len() {
        lemma_p3_inline(l[i as int], s);
        match st_render(l[i as int], s) {
            Ok(s1) => {
                lemma_p3_inline_list(l, i + 1, s1);
            },
            Err(_) => {},
        }
    }
}

/// Appending one plain piece keeps buffers clean and the scan state still.
pub proof fn lemma_emit_plain(s: RState, p: Piece)
    requires
        !s.in_para,
        !s.can_open,
        is_plain_piece(p),
        forall|k: int| 0 <= k < s.bufs.len() ==> boundaries_closed(#[trigger] s.bufs[k]),
    ensures
        ({
            let s2 = crate::generator::st_emit(crate::generator::st_open_para(s), p);
            &&& !s2.in_para
            &&& !s2.can_open
            &&& (forall|k: int| 0 <= k < s2.bufs.len() ==> boundaries_closed(#[trigger] s2.bufs[k]))
            &&& (s.bufs.len() > 0 ==> s2.bufs.len() == s.bufs.len() && para_open_after(
                s2.bufs.last(),
            ) == para_open_after(s.bufs.last()))
            &&& (s.bufs.len() == 0 ==> s2.bufs.len() <= 1 && (s2.bufs.len() == 1
                ==> !para_open_after(s2.bufs.last())))
        }),
{
    lemma_emit_plain_general(s, p);
}

/// Appending one plain piece, with no claim about the paragraph flags.
pub proof fn lemma_emit_plain_general(s: RState, p: Piece)
    requires
        is_plain_piece(p),
        forall|k: int| 0 <= k < s.bufs.len() ==> boundaries_closed(#[trigger] s.bufs[k]),
    ensures
        ({
            let s2 = crate::generator::st_emit(s, p);
            &&& s2.in_para == s.in_para
            &&& s2.can_open == s.can_open
            &&& (forall|k: int| 0 <= k < s2.bufs.len() ==> boundaries_closed(#[trigger] s2.bufs[k]))
            &&& (s.bufs.len() > 0 ==> s2.bufs.len() == s.bufs.len() && para_open_after(
                s2.bufs.last(),
            ) == para_open_after(s.bufs.last()))
            &&& (s.bufs.len() == 0 ==> s2.bufs.len() == 1 && !para_open_after(s2.bufs.last()))
        }),
{
    let s2 = crate::generator::st_emit(s, p);
    if s.bufs.len() == 0 {
        assert(s2.bufs =~= seq![seq![p]]);
        assert(seq![p].drop_last() =~= Seq::<Piece>::empty());
        assert(!para_open_after(Seq::<Piece>::empty()));
        assert(!para_open_after(seq![p]));
        assert forall|k: int| 0 <= k < s2.bufs.len() implies boundaries_closed(
            #[trigger] s2.bufs[k],
        ) by {
            assert(s2.bufs[k] == seq![p]);
            assert forall|i: int| 0 <= i < seq![p].len() && is_boundary_piece(
                #[trigger] seq![p][i],
            ) implies !para_open_after(seq![p].take(i)) by {
                assert(seq![p][i] == p);
                assert(false);
            }
        }
    } else {
        let last = s.bufs.last();
        lemma_push_scan(last, p);
        assert(s2.bufs =~= s.bufs.update(s.bufs.len() - 1, last.push(p)));
        assert(s2.bufs.last() == last.push(p));
        assert forall|k: int| 0 <= k < s2.bufs.len() implies boundaries_closed(
            #[trigger] s2.bufs[k],
        ) by {
            if k < s.bufs.len() - 1 {
                assert(s2.bufs[k] == s.bufs[k]);
            } else {
                assert(s2.bufs[k] == last.push(p));
                assert(boundaries_closed(last));
            }
        }
    }
}

} // verus!

verus! {

/// Opening a paragraph preserves the paragraph-scan invariant.
pub proof fn lemma_open_para_p3(s: RState)
    requires
        p3_inv(s),
    ensures
        p3_inv(crate::generator::st_open_para(s)),
        crate::generator::st_open_para(s).bufs.len() >= s.bufs.len(),
{
    if s.can_open && !s.in_para {
        let p = Piece::OpenPara(s.pcount);
        if s.bufs.len() == 0 {
            let s1 = crate::generator::st_emit(s, p);
            assert(s1.bufs =~= seq![seq![p]]);
            assert(seq![p].last() == p);
            assert(para_open_after(seq![p]));
            assert forall|i: int| 0 <= i < seq![p].len() && is_boundary_piece(
                #[trigger] seq![p][i],
            ) implies !para_open_after(seq![p].take(i)) by {
                assert(seq![p][i] == p);
                assert(false);
            }
        } else {
            let last = s.bufs.last();
            lemma_push_scan(last, p);
            let s1 = crate::generator::st_emit(s, p);
            assert(s1.bufs =~= s.bufs.update(s.bufs.len() - 1, last.push(p)));
            assert forall|k: int| 0 <= k < s1.bufs.len() implies boundaries_closed(
                #[trigger] s1.bufs[k],
            ) by {
                if k < s.bufs.len() - 1 {
                    assert(s1.bufs[k] == s.bufs[k]);
                } else {
                    assert(s1.bufs[k] == last.push(p));
                }
            }
        }
    }
}

/// Closing a paragraph preserves the paragraph-scan invariant and leaves the
/// scan closed.
pub proof fn lemma_close_para_p3(s: RState)
    requires
        p3_inv(s),
    ensures
        p3_inv(crate::generator::st_close_para(s)),
        !crate::generator::st_close_para(s).in_para,
        crate::generator::st_close_para(s).bufs.len() >= s.bufs.len(),
{
    if s.in_para {
        let p = Piece::ClosePara;
        let last = s.bufs.last();
        lemma_push_scan(last, p);
        let s1 = crate::generator::st_emit(s, p);
        assert(s1.bufs =~= s.bufs.update(s.bufs.len() - 1, last.push(p)));
        assert forall|k: int| 0 <= k < s1.bufs.len() implies boundaries_closed(
            #[trigger] s1.bufs[k],
        ) by {
            if k < s.bufs.len() - 1 {
                assert(s1.bufs[k] == s.bufs[k]);
            } else {
                assert(s1.bufs[k] == last.push(p));
            }
        }
    }
}

/// A boundary piece may be emitted exactly when no paragraph is open.
pub proof fn lemma_emit_boundary(s: RState, p: Piece)
    requires
        p3_inv(s),
        !s.in_para,
        is_boundary_piece(p),
    ensures
        p3_inv(crate::generator::st_emit(s, p)),
        crate::generator::st_emit(s, p).bufs.len() >= 1,
{
    let s1 = crate::generator::st_emit(s, p);
    if s.bufs.len() == 0 {
        assert(s1.bufs =~= seq![seq![p]]);
        assert(seq![p].drop_last() =~= Seq::<Piece>::empty());
        assert(!para_open_after(Seq::<Piece>::empty()));
        assert(!para_open_after(seq![p]));
        assert forall|i: int| 0 <= i < seq![p].len() && is_boundary_piece(
            #[trigger] seq![p][i],
        ) implies !para_open_after(seq![p].take(i)) by {
            assert(seq![p].take(i) =~= Seq::<Piece>::empty());
        }
    } else {
        let last = s.bufs.last();
        lemma_push_scan(last, p);
        assert(s1.bufs =~= s.bufs.update(s.bufs.len() - 1, last.push(p)));
        assert forall|k: int| 0 <= k < s1.bufs.len() implies boundaries_closed(
            #[trigger] s1.bufs[k],
        ) by {
            if k < s.bufs.len() - 1 {
                assert(s1.bufs[k] == s.bufs[k]);
            } else {
                assert(s1.bufs[k] == last.push(p));
            }
        }
    }
}

/// Rendering preserves the paragraph-scan invariant, for trees whose inline
/// runs and heading titles carry no structural boundaries.
pub proof fn lemma_p3_render(a: Atom, s: RState)
    requires
        p3_inv(s),
        inline_clean(a),
    ensures
        match st_render(a, s) {
            Ok(s2) => p3_inv(s2),
            Err(_) => true,
        },
    decreases a, 0int, 0int,
{
    match a {
        Atom::List(l) => {
            lemma_p3_render_list(l@, 0, s);
        },
        Atom::Text(t) => {
            lemma_open_para_p3(s);
            lemma_emit_plain_general(crate::generator::st_open_para(s), Piece::Lit(t@));
        },
        Atom::Escaped(c) => {
            lemma_open_para_p3(s);
            lemma_emit_plain_general(crate::generator::st_open_para(s), Piece::Lit(seq![c]));
        },
        Atom::Special(tok) => {
            match symbol_spec(tok@) {
                Some(out) => {
                    lemma_open_para_p3(s);
                    lemma_emit_plain_general(crate::generator::st_open_para(s), Piece::Lit(out));
                },
                None => {},
            }
        },
        Atom::NamedSymbol(tok) => {
            match symbol_spec(tok@) {
                Some(out) => {
                    lemma_open_para_p3(s);
                    lemma_emit_plain_general(crate::generator::st_open_para(s), Piece::Lit(out));
                },
                None => {},
            }
        },
        Atom::ParagraphEnd => {
            lemma_close_para_p3(s);
        },
        Atom::BeginEnvironment(n) => {
            if n@ == "quotation"@ {
                lemma_close_para_p3(s);
                lemma_emit_boundary(crate::generator::st_close_para(s), Piece::OpenQuote);
            }
        },
        Atom::EndEnvironment(n) => {
            if n@ == "quotation"@ {
                lemma_close_para_p3(s);
                lemma_emit_boundary(crate::generator::st_close_para(s), Piece::CloseQuote);
            }
        },
        Atom::StartChapter(title) => {
            lemma_close_para_p3(s);
            let s1 = crate::generator::st_close_para(s);
            let s2 = RState { bufs: s1.bufs.push(Seq::empty()), can_open: false, ..s1 };
            assert(p3_inv(s2)) by {
                assert(s2.bufs.last() =~= Seq::<Piece>::empty());
                assert(!para_open_after(Seq::<Piece>::empty()));
                assert forall|k: int| 0 <= k < s2.bufs.len() implies boundaries_closed(
                    #[trigger] s2.bufs[k],
                ) by {
                    if k < s1.bufs.len() {
                        assert(s2.bufs[k] == s1.bufs[k]);
                    } else {
                        assert(s2.bufs[k] =~= Seq::<Piece>::empty());
                    }
                }
            }
            lemma_emit_boundary(s2, Piece::OpenH1);
            let s3 = crate::generator::st_emit(s2, Piece::OpenH1);
            lemma_p3_inline(*title, s3);
            match st_render(*title, s3) {
                Ok(s4) => {
                    lemma_emit_boundary(s4, Piece::CloseH1);
                },
                Err(_) => {},
            }
        },
        Atom::StartSection(title) => {
            lemma_close_para_p3(s);
            let s1 = crate::generator::st_close_para(s);
            let s2 = RState { can_open: false, ..s1 };
            let s3 = crate::generator::st_emit(s2, Piece::OpenH2);
            lemma_emit_boundary(s2, Piece::OpenH2);
            lemma_p3_inline(*title, s3);
            match st_render(*title, s3) {
                Ok(s4) => {
                    lemma_emit_boundary(s4, Piece::CloseH2);
                },
                Err(_) => {},
            }
        },
        Atom::Italic(c) => {
            lemma_open_para_p3(s);
            let s1 = crate::generator::st_open_para(s);
            lemma_emit_plain_general(s1, Piece::OpenItalic);
            let s2 = crate::generator::st_emit(s1, Piece::OpenItalic);
            let inner = RState { in_para: false, can_open: false, ..s2 };
            lemma_p3_inline(*c, inner);
            match st_render(*c, inner) {
                Ok(s3) => {
                    lemma_emit_plain_general(s3, Piece::CloseItalic);
                },
                Err(_) => {},
            }
        },
        _ => {},
    }
}

/// [`lemma_p3_render`], over a sibling run.
pub proof fn lemma_p3_render_list(l: Seq<Atom>, i: nat, s: RState)
    requires
        p3_inv(s),
        forall|j: int| 0 <= j < l.len() ==> inline_clean(#[trigger] l[j]),
    ensures
        match st_render_list_from(l, i, s) {
            Ok(s2) => p3_inv(s2),
            Err(_) => true,
        },
    decreases l, 1int, l.len() - i,
{
    if i < l.len() {
        lemma_p3_render(l[i as int], s);
        match st_render(l[i as int], s) {
            Ok(s1) => {
                lemma_p3_render_list(l, i + 1, s1);
            },
            Err(_) => {},
        }
    }
}

/// Law: no buffer contains an unclosed paragraph tag at the point a chapter,
/// section, or quotation boundary is emitted — for every tree whose inline
/// runs and heading titles carry no structural boundaries. (An italic run
/// whose contents start a chapter would emit the heading inside the open
/// paragraph, so such trees are excluded.)
pub proof fn lemma_no_boundary_in_open_paragraph(a: Atom)
    requires
        inline_clean(a),
    ensures
        match spec_write_book(a) {
            Ok(bufs) => forall|k: int|
                0 <= k < bufs.len() ==> boundaries_closed(#[trigger] bufs[k]),
            Err(_) => true,
        },
{
    assert(p3_inv(st_init()));
    lemma_p3_render(a, st_init());
    match st_render(a, st_init()) {
        Ok(s2) => {
            lemma_close_para_p3(s2);
        },
        Err(_) => {},
    }
}

} // verus!

verus! {

/// The literal `lit` stands in `s` at position `i`.
pub open spec fn lit_at(s: Seq<char>, i: int, lit: Seq<char>) -> bool {
    0 <= i && i + lit.len() <= s.len() && s.subrange(i, i + lit.len()) == lit
}

/// `s` carries `<` at `i` only as the start of one of the renderer's tags.
pub open spec fn tag_start_at(s: Seq<char>, i: int) -> bool {
    lit_at(s, i, "<p id="@) || lit_at(s, i, "</p>"@) || lit_at(s, i, "<h1>"@) || lit_at(
        s,
        i,
        "</h1>"@,
    ) || lit_at(s, i, "<h2>"@) || lit_at(s, i, "</h2>"@) || lit_at(s, i, "<i>"@) || lit_at(
        s,
        i,
        "</i>"@,
    ) || lit_at(s, i, "<q>"@) || lit_at(s, i, "</q>"@)
}

/// `s` carries `>` at `i` only as the end of one of the renderer's tags: the
/// digit case closes a paragraph-opening tag after its id.
pub open spec fn tag_end_at(s: Seq<char>, i: int) -> bool {
    (1 <= i && is_ascii_digit(s[i - 1])) || lit_at(s, i - 3, "</p>"@) || lit_at(s, i - 3, "<h1>"@)
        || lit_at(s, i - 4, "</h1>"@) || lit_at(s, i - 3, "<h2>"@) || lit_at(s, i - 4, "</h2>"@)
        || lit_at(s, i - 2, "<i>"@) || lit_at(s, i - 3, "</i>"@) || lit_at(s, i - 2, "<q>"@)
        || lit_at(s, i - 3, "</q>"@)
}

/// Every angle bracket in `s` belongs to one of the renderer's fixed tags.
pub open spec fn markup_confined(s: Seq<char>) -> bool {
    forall|i: int|
        0 <= i < s.len() ==> ((#[trigger] s[i]) == '<' ==> tag_start_at(s, i)) && (s[i] == '>'
            ==> tag_end_at(s, i))
}

/// A literal found in a prefix is found in the whole.
pub proof fn lemma_lit_at_prefix(a: Seq<char>, b: Seq<char>, i: int, lit: Seq<char>)
    requires
        lit_at(a, i, lit),
    ensures
        lit_at(a + b, i, lit),
{
    assert((a + b).subrange(i, i + lit.len()) =~= a.subrange(i, i + lit.len()));
}

/// A literal found in a suffix is found in the whole, shifted.
pub proof fn lemma_lit_at_suffix(a: Seq<char>, b: Seq<char>, j: int, lit: Seq<char>)
    requires
        lit_at(b, j, lit),
    ensures
        lit_at(a + b, a.len() + j, lit),
{
    assert((a + b).subrange(a.len() + j, a.len() + j + lit.len()) =~= b.subrange(
        j,
        j + lit.len(),
    ));
}

/// Tag confinement is preserved under concatenation: each tag lies wholly
/// within the part that emitted it.
pub proof fn lemma_markup_confined_concat(a: Seq<char>, b: Seq<char>)
    requires
        markup_confined(a),
        markup_confined(b),
    ensures
        markup_confined(a + b),
{
    let s = a + b;
    assert forall|i: int| 0 <= i < s.len() implies ((#[trigger] s[i]) == '<' ==> tag_start_at(
        s,
        i,
    )) && (s[i] == '>' ==> tag_end_at(s, i)) by {
        if i < a.len() {
            assert(s[i] == a[i]);
            if s[i] == '<' {
                assert(tag_start_at(a, i));
                if lit_at(a, i, "<p id="@) {
                    lemma_lit_at_prefix(a, b, i, "<p id="@);
                } else if lit_at(a, i, "</p>"@) {
                    lemma_lit_at_prefix(a, b, i, "</p>"@);
                } else if lit_at(a, i, "<h1>"@) {
                    lemma_lit_at_prefix(a, b, i, "<h1>"@);
                } else if lit_at(a, i, "</h1>"@) {
                    lemma_lit_at_prefix(a, b, i, "</h1>"@);
                } else if lit_at(a, i, "<h2>"@) {
                    lemma_lit_at_prefix(a, b, i, "<h2>"@);
                } else if lit_at(a, i, "</h2>"@) {
                    lemma_lit_at_prefix(a, b, i, "</h2>"@);
                } else if lit_at(a, i, "<i>"@) {
                    lemma_lit_at_prefix(a, b, i, "<i>"@);
                } else if lit_at(a, i, "</i>"@) {
                    lemma_lit_at_prefix(a, b, i, "</i>"@);
                } else if lit_at(a, i, "<q>"@) {
                    lemma_lit_at_prefix(a, b, i, "<q>"@);
                } else {
                    lemma_lit_at_prefix(a, b, i, "</q>"@);
                }
            }
            if s[i] == '>' {
                assert(tag_end_at(a, i));
                if 1 <= i && is_ascii_digit(a[i - 1]) {
                    assert(s[i - 1] == a[i - 1]);
                } else if lit_at(a, i - 3, "</p>"@) {
                    lemma_lit_at_prefix(a, b, i - 3, "</p>"@);
                } else if lit_at(a, i - 3, "<h1>"@) {
                    lemma_lit_at_prefix(a, b, i - 3, "<h1>"@);
                } else if lit_at(a, i - 4, "</h1>"@) {
                    lemma_lit_at_prefix(a, b, i - 4, "</h1>"@);
                } else if lit_at(a, i - 3, "<h2>"@) {
                    lemma_lit_at_prefix(a, b, i - 3, "<h2>"@);
                } else if lit_at(a, i - 4, "</h2>"@) {
                    lemma_lit_at_prefix(a, b, i - 4, "</h2>"@);
                } else if lit_at(a, i - 2, "<i>"@) {
                    lemma_lit_at_prefix(a, b, i - 2, "<i>"@);
                } else if lit_at(a, i - 3, "</i>"@) {
                    lemma_lit_at_prefix(a, b, i - 3, "</i>"@);
                } else if lit_at(a, i - 2, "<q>"@) {
                    lemma_lit_at_prefix(a, b, i - 2, "<q>"@);
                } else {
                    lemma_lit_at_prefix(a, b, i - 3, "</q>"@);
                }
            }
        } else {
            let j = i - a.len();
            assert(s[i] == b[j]);
            if s[i] == '<' {
                assert(tag_start_at(b, j));
                if lit_at(b, j, "<p id="@) {
                    lemma_lit_at_suffix(a, b, j, "<p id="@);
                } else if lit_at(b, j, "</p>"@) {
                    lemma_lit_at_suffix(a, b, j, "</p>"@);
                } else if lit_at(b, j, "<h1>"@) {
                    lemma_lit_at_suffix(a, b, j, "<h1>"@);
                } else if lit_at(b, j, "</h1>"@) {
                    lemma_lit_at_suffix(a, b, j, "</h1>"@);
                } else if lit_at(b, j, "<h2>"@) {
                    lemma_lit_at_suffix(a, b, j, "<h2>"@);
                } else if lit_at(b, j, "</h2>"@) {
                    lemma_lit_at_suffix(a, b, j, "</h2>"@);
                } else if lit_at(b, j, "<i>"@) {
                    lemma_lit_at_suffix(a, b, j, "<i>"@);
                } else if lit_at(b, j, "</i>"@) {
                    lemma_lit_at_suffix(a, b, j, "</i>"@);
                } else if lit_at(b, j, "<q>"@) {
                    lemma_lit_at_suffix(a, b, j, "<q>"@);
                } else {
                    lemma_lit_at_suffix(a, b, j, "</q>"@);
                }
            }
            if s[i] == '>' {
                assert(tag_end_at(b, j));
                if 1 <= j && is_ascii_digit(b[j - 1]) {
                    assert(s[i - 1] == b[j - 1]);
                } else if lit_at(b, j - 3, "</p>"@) {
                    lemma_lit_at_suffix(a, b, j - 3, "</p>"@);
                } else if lit_at(b, j - 3, "<h1>"@) {
                    lemma_lit_at_suffix(a, b, j - 3, "<h1>"@);
                } else if lit_at(b, j - 4, "</h1>"@) {
                    lemma_lit_at_suffix(a, b, j - 4, "</h1>"@);
                } else if lit_at(b, j - 3, "<h2>"@) {
                    lemma_lit_at_suffix(a, b, j - 3, "<h2>"@);
                } else if lit_at(b, j - 4, "</h2>"@) {
                    lemma_lit_at_suffix(a, b, j - 4, "</h2>"@);
                } else if lit_at(b, j - 2, "<i>"@) {
                    lemma_lit_at_suffix(a, b, j - 2, "<i>"@);
                } else if lit_at(b, j - 3, "</i>"@) {
                    lemma_lit_at_suffix(a, b, j - 3, "</i>"@);
                } else if lit_at(b, j - 2, "<q>"@) {
                    lemma_lit_at_suffix(a, b, j - 2, "<q>"@);
                } else {
                    lemma_lit_at_suffix(a, b, j - 3, "</q>"@);
                }
            }
        }
    }
}

} // verus!

verus! {

/// Every piece confines its angle brackets to the fixed tags: a literal run
/// has none at all, and each tag's brackets open and close that tag.
pub proof fn lemma_piece_markup_confined(p: Piece)
    ensures
        markup_confined(piece_text(p)),
{
    reveal_strlit("<p id=");
    reveal_strlit(">");
    reveal_strlit("</p>\n\n");
    reveal_strlit("</p>");
    reveal_strlit("<h1>");
    reveal_strlit("</h1>\n\n");
    reveal_strlit("</h1>");
    reveal_strlit("<h2>");
    reveal_strlit("</h2>\n\n");
    reveal_strlit("</h2>");
    reveal_strlit("<i>");
    reveal_strlit("</i>\n");
    reveal_strlit("</i>");
    reveal_strlit("<q>\n\n");
    reveal_strlit("<q>");
    reveal_strlit("</q>\n\n");
    reveal_strlit("</q>");
    let s = piece_text(p);
    match p {
        Piece::OpenPara(id) => {
            lemma_digits_plain(id);
            let d = digits_of(id);
            assert(s == "<p id="@ + d + ">"@);
            assert(s.subrange(0, 6) =~= "<p id="@);
            assert forall|i: int| 0 <= i < s.len() implies ((#[trigger] s[i]) == '<'
                ==> tag_start_at(s, i)) && (s[i] == '>' ==> tag_end_at(s, i)) by {
                if i < 6 {
                    assert(s[i] == "<p id="@[i]);
                } else if i < 6 + d.len() {
                    assert(s[i] == d[i - 6]);
                    assert(is_ascii_digit(d[i - 6]));
                } else {
                    assert(s[i] == ">"@[0]);
                    assert(s[i - 1] == d[d.len() - 1]);
                    assert(is_ascii_digit(s[i - 1]));
                }
            }
        },
        Piece::ClosePara => {
            assert(s.subrange(0, 4) =~= "</p>"@);
        },
        Piece::OpenH1 => {
            assert(s.subrange(0, 4) =~= "<h1>"@);
        },
        Piece::CloseH1 => {
            assert(s.subrange(0, 5) =~= "</h1>"@);
        },
        Piece::OpenH2 => {
            assert(s.subrange(0, 4) =~= "<h2>"@);
        },
        Piece::CloseH2 => {
            assert(s.subrange(0, 5) =~= "</h2>"@);
        },
        Piece::OpenItalic => {
            assert(s.subrange(0, 3) =~= "<i>"@);
        },
        Piece::CloseItalic => {
            assert(s.subrange(0, 4) =~= "</i>"@);
        },
        Piece::OpenQuote => {
            assert(s.subrange(0, 3) =~= "<q>"@);
        },
        Piece::CloseQuote => {
            assert(s.subrange(0, 4) =~= "</q>"@);
        },
        Piece::Lit(t) => {
            lemma_escape_no_angle(t);
        },
    }
}

/// The tag-confinement law over a whole buffer.
pub proof fn lemma_buffer_tags_confined(ps: Seq<Piece>)
    ensures
        markup_confined(frag_text(ps)),
    decreases ps.len(),
{
    if ps.len() == 0 {
        assert(markup_confined(frag_text(ps)));
    } else {
        lemma_buffer_tags_confined(ps.drop_last());
        lemma_piece_markup_confined(ps.last());
        lemma_markup_confined_concat(frag_text(ps.drop_last()), piece_text(ps.last()));
    }
}

/// The markup law over a whole book: in every finished buffer, each `<` and
/// `>` belongs to one of the renderer's fixed tags, and each `&` begins a
/// complete entity — so no raw markup character from the manuscript survives.
pub proof fn lemma_book_tags_confined(a: Atom)
    ensures
        match spec_write_book(a) {
            Ok(bufs) => forall|k: int|
                0 <= k < bufs.len() ==> markup_confined(frag_text(#[trigger] bufs[k])),
            Err(_) => true,
        },
{
    match spec_write_book(a) {
        Ok(bufs) => {
            assert forall|k: int| 0 <= k < bufs.len() implies markup_confined(
                frag_text(#[trigger] bufs[k]),
            ) by {
                lemma_buffer_tags_confined(bufs[k]);
            }
        },
        Err(_) => {},
    }
}

} // verus!
