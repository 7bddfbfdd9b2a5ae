//! How a string is cut into the pieces that occupy terminal cells.
//!
//! Writing a string walks it in three ways. Printable ASCII goes one byte per
//! cell. Characters that can never be extended into a longer grapheme cluster
//! go one at a time with their own width. Everything else is handed to the
//! grapheme segmenter, one stretch at a time, until text the first two ways
//! can take starts again. The specifications below describe that walk; the
//! buffer then lays the pieces into cells until one does not fit.
use vstd::prelude::*;
use crate::base::unicode::{
    concat,
    grapheme_clusters,
    grapheme_width_spec,
    is_printable_ascii,
    scalar_run_starts,
    standalone_width_spec,
};

verus! {

/// One piece of a string: the text of one cell (or of a wide glyph spanning
/// `width` cells). A piece with `halt` set ends the writing.
pub struct Piece {
    pub text: Seq<char>,
    pub width: nat,
    pub halt: bool,
}

/// Length of the leading run of printable ASCII.
pub open spec fn ascii_run(s: Seq<char>) -> nat
    decreases s.len(),
{
    if s.len() > 0 && is_printable_ascii(s[0]) {
        1 + ascii_run(s.drop_first())
    } else {
        0
    }
}

/// Whether a stretch handed to the segmenter ends before cluster `g`, with
/// `tail` the text from `g` on: `g` is a lone ASCII character opening a run
/// of at least four printable ones, or the scalar path can take the text.
pub open spec fn stretch_ends(g: Seq<char>, tail: Seq<char>) -> bool {
    (g.len() == 1 && (g[0] as u32) < 0x80 && ascii_run(tail) >= 4) || scalar_run_starts(tail)
}

/// The pieces of `s`, in order.
pub open spec fn pieces(s: Seq<char>) -> Seq<Piece>
    decreases s.len(), 1int, 0int,
{
    if s.len() == 0 {
        Seq::empty()
    } else if is_printable_ascii(s[0]) && (s.len() == 1 || is_printable_ascii(s[1])) {
        seq![Piece { text: seq![s[0]], width: 1, halt: false }] + pieces(s.drop_first())
    } else if scalar_run_starts(s) {
        let w = standalone_width_spec(s[0])->0;
        if w == 0 {
            seq![Piece { text: seq![s[0]], width: 0, halt: true }]
        } else {
            seq![Piece { text: seq![s[0]], width: w as nat, halt: false }] + pieces(s.drop_first())
        }
    } else {
        seg_pieces(grapheme_clusters(s), s, s.len())
    }
}

/// The pieces of a stretch handed to the segmenter: the clusters `gs`, with
/// `tail` the text from the first of them on, until the stretch ends; then
/// the pieces of the rest. `n0` is the length of the text the stretch began
/// with.
pub open spec fn seg_pieces(gs: Seq<Seq<char>>, tail: Seq<char>, n0: nat) -> Seq<Piece>
    decreases n0, 0int, gs.len(),
{
    if gs.len() == 0 {
        Seq::empty()
    } else if stretch_ends(gs[0], tail) {
        if tail.len() < n0 {
            pieces(tail)
        } else {
            Seq::empty()
        }
    } else {
        seq![Piece { text: gs[0], width: grapheme_width_spec(gs[0]) as nat, halt: false }]
            + seg_pieces(gs.drop_first(), tail.skip(gs[0].len() as int), n0)
    }
}

/// The pieces that get written into `room` cells: pieces are taken in order,
/// zero-width ones are skipped, and writing ends at a halting piece or at the
/// first one that does not fit.
pub open spec fn fit(ps: Seq<Piece>, room: int) -> Seq<Piece>
    decreases ps.len(),
{
    if ps.len() == 0 || ps[0].halt {
        Seq::empty()
    } else if ps[0].width == 0 {
        fit(ps.drop_first(), room)
    } else if ps[0].width > room {
        Seq::empty()
    } else {
        seq![ps[0]] + fit(ps.drop_first(), room - ps[0].width)
    }
}

/// The symbols of the cells a piece covers: its text, then empty symbols for
/// the rest of a wide glyph.
pub open spec fn cells_of(p: Piece) -> Seq<Seq<char>> {
    seq![p.text] + Seq::new((p.width - 1) as nat, |i: int| Seq::<char>::empty())
}

/// The symbols of the cells a sequence of pieces covers.
pub open spec fn piece_cells(ps: Seq<Piece>) -> Seq<Seq<char>>
    decreases ps.len(),
{
    if ps.len() == 0 {
        Seq::empty()
    } else {
        cells_of(ps[0]) + piece_cells(ps.drop_first())
    }
}

/// The symbols written for string `s` into `room` cells.
pub open spec fn string_cells(s: Seq<char>, room: int) -> Seq<Seq<char>> {
    piece_cells(fit(pieces(s), room))
}

/// `fit` on a sequence that starts with `p`, unfolded once.
pub proof fn lemma_fit_cons(p: Piece, rest: Seq<Piece>, room: int)
    ensures
        fit(seq![p] + rest, room) == if p.halt {
            Seq::<Piece>::empty()
        } else if p.width == 0 {
            fit(rest, room)
        } else if p.width > room {
            Seq::<Piece>::empty()
        } else {
            seq![p] + fit(rest, room - p.width)
        },
{
    assert((seq![p] + rest)[0] == p);
    assert((seq![p] + rest).drop_first() =~= rest);
}

/// With no room left, nothing more is written.
pub proof fn lemma_fit_no_room(ps: Seq<Piece>, room: int)
    requires
        room <= 0,
    ensures
        fit(ps, room) == Seq::<Piece>::empty(),
    decreases ps.len(),
{
    if ps.len() > 0 && !ps[0].halt && ps[0].width == 0 {
        lemma_fit_no_room(ps.drop_first(), room);
    }
}

/// The pieces written into `room` cells all have a width, and together they
/// cover at most `room` cells.
pub proof fn lemma_fit_cells(ps: Seq<Piece>, room: int)
    requires
        room >= 0,
    ensures
        piece_cells(fit(ps, room)).len() <= room,
        forall|i: int| 0 <= i < fit(ps, room).len() ==> #[trigger] fit(ps, room)[i].width >= 1,
    decreases ps.len(),
{
    if ps.len() == 0 || ps[0].halt {
    } else if ps[0].width == 0 {
        lemma_fit_cells(ps.drop_first(), room);
    } else if ps[0].width > room {
    } else {
        let rest = fit(ps.drop_first(), room - ps[0].width);
        lemma_fit_cells(ps.drop_first(), room - ps[0].width);
        let f = fit(ps, room);
        assert(f == seq![ps[0]] + rest);
        assert(f.drop_first() =~= rest);
        assert forall|i: int| 0 <= i < f.len() implies #[trigger] f[i].width >= 1 by {
            if i > 0 {
                assert(f[i] == rest[i - 1]);
            }
        }
    }
}

/// Appending a piece appends its cells.
pub proof fn lemma_piece_cells_push(ps: Seq<Piece>, p: Piece)
    ensures
        piece_cells(ps.push(p)) == piece_cells(ps) + cells_of(p),
    decreases ps.len(),
{
    if ps.len() == 0 {
        assert(ps.push(p).drop_first() =~= Seq::<Piece>::empty());
        assert(ps.push(p)[0] == p);
        assert(piece_cells(Seq::<Piece>::empty()) == Seq::<Seq<char>>::empty());
        assert(piece_cells(ps.push(p)) == cells_of(p) + piece_cells(Seq::<Piece>::empty()));
        assert(piece_cells(ps.push(p)) =~= piece_cells(ps) + cells_of(p));
    } else {
        lemma_piece_cells_push(ps.drop_first(), p);
        assert(ps.push(p).drop_first() =~= ps.drop_first().push(p));
        assert(ps.push(p)[0] == ps[0]);
        assert(piece_cells(ps.push(p)) == cells_of(ps[0]) + piece_cells(ps.drop_first().push(p)));
        assert((cells_of(ps[0]) + piece_cells(ps.drop_first())) + cells_of(p) =~= cells_of(ps[0])
            + (piece_cells(ps.drop_first()) + cells_of(p)));
    }
}

/// The concatenation of the clusters from `j` on is the first of them
/// followed by the concatenation of those after it.
pub proof fn lemma_concat_step(gs: Seq<Seq<char>>, j: int)
    requires
        0 <= j < gs.len(),
    ensures
        concat(gs.skip(j)) == gs[j] + concat(gs.skip(j + 1)),
{
    assert(gs.skip(j).drop_first() =~= gs.skip(j + 1));
}

} // verus!
