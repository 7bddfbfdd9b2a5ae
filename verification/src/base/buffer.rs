//! The two-dimensional grid of cells that widgets draw into.
use vstd::prelude::*;
use std::collections::HashMap;
use crate::base::cell::{Cell, is_reset_cell, same_cell, styled_cell};
use crate::base::rect::{Position, Rect, min_int, sat_add, sat_sub};
use crate::base::style::{Color, Style, plain_style};
use crate::base::symbol::Symbol;
use crate::base::text::{Line, Span};
use crate::base::chars::str_to_chars;
use crate::base::segment::{
    Piece,
    ascii_run,
    cells_of,
    fit,
    lemma_concat_step,
    lemma_fit_cells,
    lemma_fit_cons,
    lemma_fit_no_room,
    lemma_piece_cells_push,
    piece_cells,
    pieces,
    seg_pieces,
    stretch_ends,
    string_cells,
};
use crate::base::unicode::{
    concat,
    grapheme_clusters,
    grapheme_width,
    grapheme_width_spec,
    graphemes,
    is_printable_ascii,
    scalar_run_starts,
    standalone_width,
    standalone_width_spec,
    str_width,
    unicode_str_width,
};

verus! {

broadcast use vstd::std_specs::hash::group_hash_axioms;

/// The index of the cell at `(x, y)` in the row-major grid of `area`, or
/// `None` when the position lies outside it.
pub open spec fn cell_index(area: Rect, x: int, y: int) -> Option<int> {
    if area.spec_contains(x, y) {
        Some((y - area.y) * area.width + (x - area.x))
    } else {
        None
    }
}

/// The column of the cell stored at index `i` of the grid of `area`.
pub open spec fn index_x(area: Rect, i: int) -> int {
    area.x + i % (area.width as int)
}

/// The row of the cell stored at index `i` of the grid of `area`.
pub open spec fn index_y(area: Rect, i: int) -> int {
    area.y + i / (area.width as int)
}

/// Whether the cell stored at index `i` of the grid of `area` shows a
/// position of `r` (and of the grid itself).
pub open spec fn index_in(area: Rect, r: Rect, i: int) -> bool {
    area.spec_contains(index_x(area, i), index_y(area, i)) && r.spec_contains(
        index_x(area, i),
        index_y(area, i),
    )
}

/// `c` with its symbol replaced by `sym` and `style` applied.
pub open spec fn stamped(old: Cell, new: Cell, sym: Seq<char>, style: Style) -> bool {
    &&& new.symbol@ == sym
    &&& new == styled_cell(
        Cell {
            symbol: new.symbol,
            fg: old.fg,
            bg: old.bg,
            underline_color: old.underline_color,
            modifier: old.modifier,
        },
        style,
    )
}

/// `new` is `old` with the cells from `start` on given the symbols `syms`
/// and `style` applied to them; every other cell is unchanged.
pub open spec fn wrote(
    old: Seq<Cell>,
    new: Seq<Cell>,
    start: int,
    syms: Seq<Seq<char>>,
    style: Style,
) -> bool {
    &&& new.len() == old.len()
    &&& forall|i: int|
        0 <= i < old.len() ==> if start <= i < start + syms.len() {
            stamped(old[i], #[trigger] new[i], syms[i - start], style)
        } else {
            new[i] == old[i]
        }
}

/// Whether `ascii_run(s)` reaches `k`: the first `k` characters exist and
/// are printable ASCII.
pub proof fn lemma_ascii_run_reaches(s: Seq<char>, k: int)
    requires
        0 <= k,
    ensures
        (ascii_run(s) >= k) <==> (k <= s.len() && forall|i: int|
            0 <= i < k ==> is_printable_ascii(#[trigger] s[i])),
    decreases k,
{
    if k > 0 && s.len() > 0 && is_printable_ascii(s[0]) {
        lemma_ascii_run_reaches(s.drop_first(), k - 1);
        if k <= s.len() && (forall|i: int| 0 <= i < k - 1 ==> is_printable_ascii(#[trigger] s.drop_first()[i])) {
            assert forall|i: int| 0 <= i < k implies is_printable_ascii(#[trigger] s[i]) by {
                if i > 0 {
                    assert(s[i] == s.drop_first()[i - 1]);
                }
            }
        }
        if k <= s.len() && (forall|i: int| 0 <= i < k ==> is_printable_ascii(#[trigger] s[i])) {
            assert forall|i: int| 0 <= i < k - 1 implies is_printable_ascii(#[trigger] s.drop_first()[i]) by {
                assert(s.drop_first()[i] == s[i + 1]);
            }
        }
    }
}

/// Painting grows by the cells one more write stamped at its end.
pub proof fn lemma_painted_extend(
    old: Seq<Cell>,
    mid: Seq<Cell>,
    new: Seq<Cell>,
    start: int,
    done: Seq<(Seq<char>, Style)>,
    syms: Seq<Seq<char>>,
    style: Style,
)
    requires
        painted(old, mid, start, done),
        wrote(mid, new, start + done.len(), syms, style),
        0 <= start,
        start + done.len() + syms.len() <= old.len(),
    ensures
        painted(old, new, start, done + syms.map_values(|sym: Seq<char>| (sym, style))),
{
    let runs = syms.map_values(|sym: Seq<char>| (sym, style));
    let all = done + runs;
    assert forall|i: int| 0 <= i < old.len() implies if start <= i < start + all.len() {
        stamped(old[i], #[trigger] new[i], all[i - start].0, all[i - start].1)
    } else {
        new[i] == old[i]
    } by {
        if start <= i < start + done.len() {
            assert(all[i - start] == done[i - start]);
        } else if start + done.len() <= i < start + all.len() {
            assert(all[i - start] == runs[i - start - done.len()]);
            assert(mid[i] == old[i]);
        }
    }
}

/// One more line written by `with_lines` keeps every cell plain, showing
/// the symbol of the last line that reaches it.
proof fn lemma_with_lines_step(
    before: Seq<Cell>,
    after: Seq<Cell>,
    ls: Seq<Seq<char>>,
    area: Rect,
    k: usize,
)
    requires
        k < ls.len(),
        area.x == 0,
        area.y == 0,
        before.len() == area.width * area.height,
        forall|t: int|
            0 <= t < before.len() ==> plain_cell(
                #[trigger] before[t],
                last_symbol(ls, area.width as int, t / (area.width as int), t % (area.width as int), k as int),
            ),
        match cell_index(area, 0, (k as u16) as int) {
            None => after == before,
            Some(start) => {
                let syms = string_cells(ls[k as int], min_int(sat_sub(area.spec_right(), 0), area.x + area.width - 0));
                &&& start + syms.len() <= before.len()
                &&& wrote(before, after, start, syms, plain_style())
            },
        },
    ensures
        forall|t: int|
            0 <= t < after.len() ==> plain_cell(
                #[trigger] after[t],
                last_symbol(ls, area.width as int, t / (area.width as int), t % (area.width as int), k + 1),
            ),
        after.len() == before.len(),
{
    let w = area.width as int;
    let y = (k as u16) as int;
    let yu = k as u16;
    assert(yu as usize == k % 65536) by (bit_vector)
        requires
            yu == k as u16,
    ;
    assert(sat_sub(area.spec_right(), 0) == w);
    let syms = string_cells(ls[k as int], w);
    assert forall|t: int| 0 <= t < after.len() implies plain_cell(
        #[trigger] after[t],
        last_symbol(ls, w, t / w, t % w, k + 1),
    ) by {
        let h = area.height as int;
        assert(w > 0) by (nonlinear_arith)
            requires
                0 <= t < w * h,
                0 <= w,
                0 <= h,
        ;
        vstd::arithmetic::div_mod::lemma_fundamental_div_mod(t, w);
        vstd::arithmetic::div_mod::lemma_mod_bound(t, w);
        let (r, c) = (t / w, t % w);
        assert(t == r * w + c) by (nonlinear_arith)
            requires
                t == w * r + c,
        ;
        match cell_index(area, 0, y) {
            None => {
                assert(!(0 <= y < area.spec_bottom()));
                assert(r < area.height) by (nonlinear_arith)
                    requires
                        t < w * area.height,
                        t == r * w + c,
                        0 <= c,
                        w > 0,
                ;
                assert(y != r);
            },
            Some(start) => {
                assert(start == y * w);
                lemma_fit_cells(pieces(ls[k as int]), w);
                if r == y && c < syms.len() {
                    assert(start <= t < start + syms.len());
                    crate::base::cell::lemma_styled_plain(Cell {
                        symbol: after[t].symbol,
                        fg: before[t].fg,
                        bg: before[t].bg,
                        underline_color: before[t].underline_color,
                        modifier: before[t].modifier,
                    });
                } else {
                    assert(!(start <= t < start + syms.len())) by {
                        if start <= t < start + syms.len() {
                            assert(r == y) by (nonlinear_arith)
                                requires
                                    t == r * w + c,
                                    0 <= c < w,
                                    y * w <= t < y * w + w,
                            ;
                        }
                    }
                }
            },
        }
    }
}

/// Viewing the targets of a link map commutes with inserting one.
pub proof fn lemma_view_links_insert(m: Map<u32, String>, k: u32, u: String)
    ensures
        m.insert(k, u).map_values(|s: String| s@) == m.map_values(|s: String| s@).insert(k, u@),
{
    assert(m.insert(k, u).map_values(|s: String| s@) =~= m.map_values(|s: String| s@).insert(
        k,
        u@,
    ));
}

/// The index of a position inside the grid, with its row and column.
pub proof fn lemma_cell_index(area: Rect, x: int, y: int)
    requires
        area.spec_contains(x, y),
    ensures
        cell_index(area, x, y) matches Some(i) && {
            &&& 0 <= i < area.width * area.height
            &&& area.width * area.height <= 65535 * 65535
            &&& i + (area.spec_right() - x) <= (y - area.y + 1) * area.width
            &&& (y - area.y + 1) * area.width <= area.width * area.height
            &&& index_x(area, i) == x
            &&& index_y(area, i) == y
        },
{
    let w = area.width as int;
    let h = area.height as int;
    let row = y - area.y;
    let col = x - area.x;
    assert(area.spec_right() <= area.x + w);
    assert(area.spec_bottom() <= area.y + h);
    assert(0 <= row < h);
    assert(0 <= col < w);
    assert(row * w + col < (row + 1) * w) by (nonlinear_arith)
        requires
            col < w,
    ;
    assert((row + 1) * w <= h * w) by (nonlinear_arith)
        requires
            row + 1 <= h,
            0 <= w,
    ;
    assert(0 <= row * w) by (nonlinear_arith)
        requires
            0 <= row,
            0 <= w,
    ;
    assert(h * w == w * h) by (nonlinear_arith);
    assert(w * h <= 65535 * 65535) by (nonlinear_arith)
        requires
            0 <= w <= 65535,
            0 <= h <= 65535,
    ;
    assert((row + 1) * w == row * w + w) by (nonlinear_arith);
    vstd::arithmetic::div_mod::lemma_fundamental_div_mod_converse(row * w + col, w, row, col);
    assert(cell_index(area, x, y) == Some(row * w + col));
}

/// What writing `string` at `(x, y)` into at most `max_width` columns does
/// to a buffer and returns (`r`). Outside the grid nothing is written and the
/// result is zero. Inside it, the room is `max_width` columns but no more
/// than the row holds from `x` on, and the cells from `(x, y)` on receive
/// `string_cells(string, room)`; the result is how many there are.
pub open spec fn set_string_result(
    old: &Buffer,
    new: &Buffer,
    x: int,
    y: int,
    string: Seq<char>,
    max_width: int,
    style: Style,
    r: int,
) -> bool {
    let a = old.spec_area();
    match cell_index(a, x, y) {
        None => r == 0 && new.cells() == old.cells(),
        Some(start) => {
            let room = min_int(max_width, a.x + a.width - x);
            let syms = string_cells(string, room);
            &&& r == syms.len()
            &&& r <= max_width
            &&& start + r <= old.cells().len()
            &&& wrote(old.cells(), new.cells(), start, syms, style)
        },
    }
}

/// What writing the grapheme `sym` at `(x, y)` does: nothing, with result
/// zero, for a zero-width grapheme or outside the grid; otherwise it takes
/// its width in cells, but no more than the row holds from `x` on.
pub open spec fn set_symbol_result(
    old: &Buffer,
    new: &Buffer,
    x: int,
    y: int,
    sym: Seq<char>,
    style: Style,
    r: int,
) -> bool {
    let a = old.spec_area();
    let w = grapheme_width_spec(sym) as int;
    match cell_index(a, x, y) {
        Some(start) if w > 0 => {
            let n = min_int(w, a.x + a.width - x);
            &&& r == n
            &&& wrote(old.cells(), new.cells(), start, cells_of(Piece { text: sym, width: n as nat, halt: false }), style)
        },
        _ => r == 0 && new.cells() == old.cells(),
    }
}

/// The text of the first `n` cells of row `y`, symbol after symbol.
pub open spec fn row_text_upto(cells: Seq<Cell>, a: Rect, y: int, n: int) -> Seq<char>
    decreases n,
{
    if n <= 0 {
        Seq::empty()
    } else {
        row_text_upto(cells, a, y, n - 1) + match cell_index(a, a.x + n - 1, y) {
            Some(i) => cells[i].symbol@,
            None => Seq::empty(),
        }
    }
}

/// The text of row `y`: the symbols of its cells in order, or nothing when
/// the row is outside the area.
pub open spec fn row_text_spec(cells: Seq<Cell>, a: Rect, y: int) -> Seq<char> {
    row_text_upto(cells, a, y, a.spec_right() - a.x)
}

/// The text of the first `n` rows, joined by line feeds.
pub open spec fn text_upto(cells: Seq<Cell>, a: Rect, n: int) -> Seq<char>
    decreases n,
{
    if n <= 0 {
        Seq::empty()
    } else if n == 1 {
        row_text_spec(cells, a, a.y as int)
    } else {
        text_upto(cells, a, n - 1) + seq!['\n'] + row_text_spec(cells, a, a.y + n - 1)
    }
}

/// The cell indices a hyperlink from `(x, y)` over `width` columns covers:
/// nothing for an empty link, a zero width or a start outside the grid;
/// otherwise from the start up to `width` cells, clipped to the row and to
/// the `u16` column range.
pub open spec fn link_span(a: Rect, x: int, y: int, width: int, url: Seq<char>) -> (int, int) {
    match cell_index(a, x, y) {
        Some(start) if width > 0 && url.len() > 0 => {
            let cols = min_int(sat_add(x, width) - x, a.x + a.width - x);
            (start, start + cols)
        },
        _ => (0, 0),
    }
}

/// `links` with every index in `span` pointing at `url`.
pub open spec fn with_link(links: Map<u32, Seq<char>>, span: (int, int), url: Seq<char>) -> Map<
    u32,
    Seq<char>,
> {
    Map::new(
        |k: u32| links.contains_key(k) || span.0 <= k < span.1,
        |k: u32|
            if span.0 <= k < span.1 {
                url
            } else {
                links[k]
            },
    )
}

/// The changed cells among the first `n` cells of two buffers over the same
/// area, in index order: those whose cells differ, or, when `check` is set,
/// whose hyperlinks differ. Each is given as the column, row and new cell.
pub open spec fn diff_flat(a: &Buffer, b: &Buffer, check: bool, n: int) -> Seq<(u16, u16, Cell)>
    decreases n,
{
    if n <= 0 {
        Seq::empty()
    } else {
        let i = n - 1;
        let area = a.spec_area();
        diff_flat(a, b, check, n - 1) + if !same_cell(a.cells()[i], b.cells()[i]) || (check
            && a.links().get(i as u32) != b.links().get(i as u32)) {
            seq![(index_x(area, i) as u16, index_y(area, i) as u16, b.cells()[i])]
        } else {
            Seq::empty()
        }
    }
}

/// The changed cells among the first `n` columns of row `y`, from column
/// `x0` on, of two buffers over different areas.
pub open spec fn diff_row(a: &Buffer, b: &Buffer, y: int, x0: int, n: int) -> Seq<(u16, u16, Cell)>
    decreases n,
{
    if n <= 0 {
        Seq::empty()
    } else {
        let x = x0 + n - 1;
        diff_row(a, b, y, x0, n - 1) + match (
            cell_index(a.spec_area(), x, y),
            cell_index(b.spec_area(), x, y),
        ) {
            (Some(i), Some(j)) if !same_cell(a.cells()[i], b.cells()[j]) => seq![
                (x as u16, y as u16, b.cells()[j]),
            ],
            _ => Seq::empty(),
        }
    }
}

/// The changed cells in the first `m` rows of the overlap of two buffers.
pub open spec fn diff_rows(a: &Buffer, b: &Buffer, m: int) -> Seq<(u16, u16, Cell)>
    decreases m,
{
    let inter = a.spec_area().spec_intersection(b.spec_area());
    if m <= 0 {
        Seq::empty()
    } else {
        diff_rows(a, b, m - 1) + diff_row(
            a,
            b,
            inter.y + m - 1,
            inter.x as int,
            inter.spec_right() - inter.x,
        )
    }
}

/// The cells of `b` that differ from `a`, with their positions: over the
/// same area, every cell in index order, hyperlinks compared too when either
/// buffer has one; otherwise the overlap of the two areas, row by row,
/// cells only.
pub open spec fn diff_spec(a: &Buffer, b: &Buffer) -> Seq<(u16, u16, Cell)> {
    if a.spec_area() == b.spec_area() {
        diff_flat(
            a,
            b,
            !a.links().is_empty() || !b.links().is_empty(),
            a.cells().len() as int,
        )
    } else {
        let inter = a.spec_area().spec_intersection(b.spec_area());
        diff_rows(a, b, inter.spec_bottom() - inter.y)
    }
}

/// Over the same area, no changed cell lies beyond the `u16` coordinate
/// range (which would overflow its reported position).
pub open spec fn diff_in_range(a: &Buffer, b: &Buffer) -> bool {
    a.spec_area() == b.spec_area() ==> forall|i: int|
        0 <= i < a.cells().len() && (!same_cell(a.cells()[i], b.cells()[i]) || a.links().get(
            i as u32,
        ) != b.links().get(i as u32)) ==> index_x(a.spec_area(), i) <= 65535 && index_y(
            a.spec_area(),
            i,
        ) <= 65535
}

/// Whether index `k` of `a` shows a position that `b` covers too.
pub open spec fn in_overlap(a: &Buffer, b: &Buffer, k: int) -> bool {
    0 <= k < a.cells().len() && index_in(a.spec_area(), b.spec_area(), k)
}

/// The index in `b` of the position that index `k` of `a` shows.
pub open spec fn source_index(a: &Buffer, b: &Buffer, k: int) -> int {
    cell_index(b.spec_area(), index_x(a.spec_area(), k), index_y(a.spec_area(), k))->0
}

/// The hyperlinks of `a` after the overlap takes over those of `b`: inside
/// the overlap a cell has exactly the link its counterpart in `b` has;
/// outside it the links of `a` stay.
pub open spec fn merged_links(a: &Buffer, b: &Buffer) -> Map<u32, Seq<char>> {
    Map::new(
        |k: u32|
            if in_overlap(a, b, k as int) {
                b.links().contains_key(source_index(a, b, k as int) as u32)
            } else {
                a.links().contains_key(k)
            },
        |k: u32|
            if in_overlap(a, b, k as int) {
                b.links()[source_index(a, b, k as int) as u32]
            } else {
                a.links()[k]
            },
    )
}

/// The links of `a` while `merge_links` runs: the overlap positions before
/// `(x, y)` in row order have taken the link of their counterpart in `b`.
pub open spec fn links_merged_upto(a: &Buffer, b: &Buffer, y: int, x: int) -> Map<u32, Seq<char>> {
    let area = a.spec_area();
    let done = |k: u32|
        in_overlap(a, b, k as int) && (index_y(area, k as int) < y || (index_y(area, k as int) == y
            && index_x(area, k as int) < x));
    Map::new(
        |k: u32|
            if done(k) {
                b.links().contains_key(source_index(a, b, k as int) as u32)
            } else {
                a.links().contains_key(k)
            },
        |k: u32|
            if done(k) {
                b.links()[source_index(a, b, k as int) as u32]
            } else {
                a.links()[k]
            },
    )
}

/// `new` is `old` with the cells from `start` on given the symbols and
/// styles of `runs`; every other cell is unchanged.
pub open spec fn painted(old: Seq<Cell>, new: Seq<Cell>, start: int, runs: Seq<(Seq<char>, Style)>) -> bool {
    &&& new.len() == old.len()
    &&& forall|i: int|
        0 <= i < old.len() ==> if start <= i < start + runs.len() {
            stamped(old[i], #[trigger] new[i], runs[i - start].0, runs[i - start].1)
        } else {
            new[i] == old[i]
        }
}

/// The symbols and styles the spans write from `(x + col, y)` on, each span
/// taking what room is left of `max_width` columns and of the row, until the
/// room is used up.
pub open spec fn line_runs(a: Rect, spans: Seq<Span>, x: int, y: int, max_width: int, col: int) -> Seq<
    (Seq<char>, Style),
>
    decreases spans.len(),
{
    if spans.len() == 0 || col >= max_width {
        Seq::empty()
    } else {
        let syms = match cell_index(a, x + col, y) {
            Some(_) => string_cells(spans[0].content@, min_int(max_width - col, a.x + a.width - (x + col))),
            None => Seq::empty(),
        };
        syms.map_values(|sym: Seq<char>| (sym, spans[0].style)) + line_runs(
            a,
            spans.drop_first(),
            x,
            y,
            max_width,
            col + syms.len(),
        )
    }
}

/// Each span of a line starts at a column that fits in `u16`.
pub open spec fn line_in_range(a: Rect, spans: Seq<Span>, x: int, y: int, max_width: int, col: int) -> bool
    decreases spans.len(),
{
    if spans.len() == 0 || col >= max_width {
        true
    } else {
        let syms = match cell_index(a, x + col, y) {
            Some(_) => string_cells(spans[0].content@, min_int(max_width - col, a.x + a.width - (x + col))),
            None => Seq::empty(),
        };
        x + col <= 65535 && line_in_range(a, spans.drop_first(), x, y, max_width, col + syms.len())
    }
}

/// What writing the spans of a line at `(x, y)` into at most `max_width`
/// columns does and returns (`r`).
pub open spec fn set_line_result(old: &Buffer, new: &Buffer, x: int, y: int, spans: Seq<Span>, max_width: int, r: int) -> bool {
    let runs = line_runs(old.spec_area(), spans, x, y, max_width, 0);
    &&& r == runs.len()
    &&& match cell_index(old.spec_area(), x, y) {
        Some(start) => painted(old.cells(), new.cells(), start, runs),
        None => new.cells() == old.cells(),
    }
}

/// The widest of the lines, each width cut to `u16` first; zero for none.
pub open spec fn lines_max_width(lines: Seq<Seq<char>>) -> u16
    decreases lines.len(),
{
    if lines.len() == 0 {
        0
    } else {
        let w = unicode_str_width(lines.last()) as u16;
        let rest = lines_max_width(lines.drop_last());
        if w > rest {
            w
        } else {
            rest
        }
    }
}

/// The symbol that the first `k` of `lines`, each written from the left edge
/// of row `i as u16` over `width` columns, leave in column `c` of row `row`:
/// that of the last line reaching that far, if any.
pub open spec fn last_symbol(lines: Seq<Seq<char>>, width: int, row: int, c: int, k: int) -> Option<
    Seq<char>,
>
    decreases k,
{
    if k <= 0 {
        None
    } else {
        let i = k - 1;
        let syms = string_cells(lines[i], width);
        if i % 65536 == row && c < syms.len() {
            Some(syms[c])
        } else {
            last_symbol(lines, width, row, c, k - 1)
        }
    }
}

/// Cell `c` shows `sym` (or a space) with default colors and no modifiers.
pub open spec fn plain_cell(c: Cell, sym: Option<Seq<char>>) -> bool {
    &&& c.symbol@ == match sym {
        Some(s) => s,
        None => seq![' '],
    }
    &&& c.fg == Color::Reset
    &&& c.bg == Color::Reset
    &&& c.underline_color == Color::Reset
    &&& c.modifier.0 == 0
}

/// A two-dimensional grid of terminal cells.
///
/// The buffer is the primary rendering target. Widgets write into a buffer,
/// and the terminal backend diffs the current buffer against the previous
/// frame to compute minimal screen updates.
#[derive(Debug, PartialEq, Eq)]
pub struct Buffer {
    pub area: Rect,
    pub content: Vec<Cell>,
    /// Sparse map of cell index to hyperlink target. Hyperlinks are rare and
    /// cover a handful of cells, so they live beside the grid rather than in
    /// each cell.
    links: HashMap<u32, String>,
}

impl Buffer {
    /// The cells, row by row.
    pub closed spec fn cells(&self) -> Seq<Cell> {
        self.content@
    }

    /// The area the buffer covers.
    pub closed spec fn spec_area(&self) -> Rect {
        self.area
    }

    /// The hyperlink targets, by cell index.
    pub closed spec fn links(&self) -> Map<u32, Seq<char>> {
        self.links@.map_values(|u: String| u@)
    }

    /// One cell for each position of the area; links only on cells.
    pub open spec fn wf(&self) -> bool {
        &&& self.cells().len() == self.spec_area().width * self.spec_area().height
        &&& forall|k: u32| #[trigger] self.links().contains_key(k) ==> k < self.cells().len()
    }

    /// A buffer over `area` whose every cell is a reset cell.
    pub open spec fn is_blank(&self, area: Rect) -> bool {
        &&& self.wf()
        &&& self.spec_area() == area
        &&& forall|i: int| 0 <= i < self.cells().len() ==> is_reset_cell(#[trigger] self.cells()[i])
        &&& self.links() == Map::<u32, Seq<char>>::empty()
    }

    proof fn lemma_no_links(&self)
        requires
            self.links@ == Map::<u32, String>::empty(),
        ensures
            self.links() == Map::<u32, Seq<char>>::empty(),
    {
        assert(self.links() =~= Map::<u32, Seq<char>>::empty());
    }

    /// A vector of `n` reset cells.
    fn blank_cells(n: usize) -> (r: Vec<Cell>)
        ensures
            r@.len() == n,
            forall|i: int| 0 <= i < n ==> is_reset_cell(#[trigger] r@[i]),
    {
        let mut v: Vec<Cell> = Vec::with_capacity(n);
        let mut i: usize = 0;
        while i < n
            invariant
                i <= n,
                v@.len() == i,
                forall|j: int| 0 <= j < i ==> is_reset_cell(#[trigger] v@[j]),
            decreases n - i,
        {
            v.push(Cell::EMPTY());
            i = i + 1;
        }
        v
    }

    /// The area the buffer covers.
    pub fn area_rect(&self) -> (r: Rect)
        ensures
            r == self.spec_area(),
    {
        self.area
    }

    /// Create a new buffer filled with empty cells.
    pub fn empty(area: Rect) -> (r: Self)
        ensures
            r.is_blank(area),
    {
        let size = area.area() as usize;
        let r = Buffer { area, content: Self::blank_cells(size), links: HashMap::new() };
        proof {
            r.lemma_no_links();
        }
        r
    }

    /// A buffer showing `lines`, one per row from the top, as wide as the
    /// widest of them (for testing).
    pub fn with_lines(lines: &[&str]) -> (r: Self)
        ensures
            r.wf(),
            r.spec_area() == Rect::new_spec(0, 0, lines_max_width(lines@.map_values(|l: &str| l@)), lines@.len() as u16),
            r.links() == Map::<u32, Seq<char>>::empty(),
            forall|k: int|
                0 <= k < r.cells().len() ==> plain_cell(
                    #[trigger] r.cells()[k],
                    last_symbol(
                        lines@.map_values(|l: &str| l@),
                        r.spec_area().width as int,
                        index_y(r.spec_area(), k),
                        k % (r.spec_area().width as int),
                        lines@.len() as int,
                    ),
                ),
    {
        let ghost ls = lines@.map_values(|l: &str| l@);
        let n = lines.len();
        let height = n as u16;
        let mut width: u16 = 0;
        let mut i: usize = 0;
        while i < n
            invariant
                n == lines@.len(),
                ls == lines@.map_values(|l: &str| l@),
                i <= n,
                width == lines_max_width(ls.take(i as int)),
            decreases n - i,
        {
            proof {
                assert(ls.take(i + 1).drop_last() =~= ls.take(i as int));
                assert(ls.take(i + 1).last() == lines@[i as int]@);
            }
            let w = str_width(lines[i]) as u16;
            if w > width {
                width = w;
            }
            i = i + 1;
        }
        assert(ls.take(n as int) =~= ls);
        let area = Rect::new(0, 0, width, height);
        let mut buf = Buffer::empty(area);
        let ghost w = width as int;
        let mut k: usize = 0;
        while k < n
            invariant
                n == lines@.len(),
                ls == lines@.map_values(|l: &str| l@),
                k <= n,
                buf.wf(),
                buf.area == area,
                area.x == 0 && area.y == 0 && area.width == width && area.height == height,
                w == width,
                buf.links() == Map::<u32, Seq<char>>::empty(),
                forall|t: int|
                    0 <= t < buf.content@.len() ==> plain_cell(
                        #[trigger] buf.content@[t],
                        last_symbol(ls, w, t / w, t % w, k as int),
                    ),
            decreases n - k,
        {
            let ghost before = buf.content@;
            buf.set_string(0, k as u16, lines[k], Style::new());
            proof {
                self::lemma_with_lines_step(before, buf.content@, ls, area, k);
            }
            k = k + 1;
        }
        buf
    }

    /// Reset all cells to empty.
    pub fn reset(&mut self)
        requires
            old(self).wf(),
        ensures
            final(self).is_blank(old(self).spec_area()),
    {
        let n = self.content.len();
        let mut i: usize = 0;
        while i < n
            invariant
                n == self.content@.len(),
                self.area == old(self).area,
                self.links == old(self).links,
                i <= n,
                forall|j: int| 0 <= j < i ==> is_reset_cell(#[trigger] self.content@[j]),
            decreases n - i,
        {
            self.content.set(i, Cell::EMPTY());
            i = i + 1;
        }
        self.links.clear();
        proof {
            self.lemma_no_links();
        }
    }

    /// Resize the buffer (discards content).
    pub fn resize(&mut self, area: Rect)
        ensures
            final(self).is_blank(area),
    {
        let size = area.area() as usize;
        self.area = area;
        self.links.clear();
        self.content = Self::blank_cells(size);
        proof {
            self.lemma_no_links();
        }
    }

    /// The index of the cell at `(x, y)`, if within bounds.
    fn index_of(&self, x: u16, y: u16) -> (r: Option<usize>)
        requires
            self.wf(),
        ensures
            r is None <==> cell_index(self.area, x as int, y as int) is None,
            r matches Some(i) ==> cell_index(self.area, x as int, y as int) == Some(i as int) && i
                < self.content@.len(),
    {
        if x >= self.area.x && x < self.area.right() && y >= self.area.y && y < self.area.bottom() {
            proof {
                lemma_cell_index(self.area, x as int, y as int);
            }
            Some(((y - self.area.y) as usize) * (self.area.width as usize) + ((x
                - self.area.x) as usize))
        } else {
            None
        }
    }

    /// Index one past the last cell of row `y` of the buffer.
    fn row_end(&self, y: u16) -> (r: usize)
        requires
            self.wf(),
            self.area.y <= y < self.area.spec_bottom(),
        ensures
            r == (y - self.area.y + 1) * self.area.width,
            r <= self.content@.len(),
    {
        let row = (y - self.area.y) as usize;
        assert((row + 1) * self.area.width <= self.area.width * self.area.height) by (
        nonlinear_arith)
            requires
                row + 1 <= self.area.height,
        ;
        assert(self.area.width * self.area.height <= 65535 * 65535) by (nonlinear_arith)
            requires
                self.area.width <= 65535,
                self.area.height <= 65535,
        ;
        (row + 1) * self.area.width as usize
    }

    /// Write one piece of width `w` at `idx`: its symbol in the first cell,
    /// empty symbols in the rest, `style` applied to all of them.
    fn put_piece(&mut self, idx: usize, w: usize, sym: Symbol, style: Style)
        requires
            old(self).wf(),
            w >= 1,
            idx + w <= old(self).content@.len(),
        ensures
            final(self).wf(),
            final(self).area == old(self).area,
            final(self).links == old(self).links,
            wrote(
                old(self).content@,
                final(self).content@,
                idx as int,
                cells_of(Piece { text: sym@, width: w as nat, halt: false }),
                style,
            ),
    {
        let ghost p = Piece { text: sym@, width: w as nat, halt: false };
        let ghost old_content = self.content@;
        let len = self.content.len();
        let mut c = self.content[idx].clone();
        c.symbol = sym;
        c.apply_style(style);
        self.content.set(idx, c);
        proof {
            self.lemma_same_shape(old(self));
        }
        let mut k: usize = idx + 1;
        while k < idx + w
            invariant
                self.wf(),
                len == old_content.len(),
                self.area == old(self).area,
                self.links == old(self).links,
                old_content == old(self).content@,
                idx < k <= idx + w,
                p.width == w,
                idx + w <= old_content.len(),
                self.content@.len() == old_content.len(),
                forall|i: int|
                    0 <= i < old_content.len() ==> if idx <= i < k {
                        stamped(old_content[i], #[trigger] self.content@[i], cells_of(p)[i - idx], style)
                    } else {
                        self.content@[i] == old_content[i]
                    },
            decreases idx + w - k,
        {
            let mut c = self.content[k].clone();
            c.symbol = Symbol::EMPTY();
            c.apply_style(style);
            let ghost before = *self;
            self.content.set(k, c);
            proof {
                self.lemma_same_shape(&before);
                let tail_cells = Seq::new((p.width - 1) as nat, |i: int| Seq::<char>::empty());
                assert(p.width == w);
                assert(tail_cells.len() == w - 1);
                assert(0 <= k - idx - 1 < w - 1);
                assert(cells_of(p) == seq![p.text] + tail_cells);
                assert(seq![p.text].len() == 1);
                assert(cells_of(p)[k - idx] == tail_cells[k - idx - 1]);
            }
            k = k + 1;
        }
    }

    /// A well-formed buffer holds at most `65535 * 65535` cells.
    proof fn lemma_len_bound(&self)
        requires
            self.wf(),
        ensures
            self.content@.len() <= 65535 * 65535,
    {
        let (w, h) = (self.area.width, self.area.height);
        assert(w * h <= 65535 * 65535) by (nonlinear_arith)
            requires
                w <= 65535,
                h <= 65535,
        ;
    }

    /// Changing cells but not their number keeps a buffer well-formed.
    proof fn lemma_same_shape(&self, other: &Buffer)
        requires
            other.wf(),
            self.area == other.area,
            self.links == other.links,
            self.content@.len() == other.content@.len(),
        ensures
            self.wf(),
    {
        assert(self.links() == other.links());
    }

    /// The characters of `cs` from `from` on, as a string.
    fn suffix_string(cs: &Vec<char>, from: usize) -> (r: String)
        requires
            from <= cs@.len(),
        ensures
            r@ == cs@.skip(from as int),
    {
        let mut out = String::new();
        let mut i: usize = from;
        while i < cs.len()
            invariant
                from <= i <= cs@.len(),
                out@ == cs@.subrange(from as int, i as int),
            decreases cs@.len() - i,
        {
            crate::base::chars::string_push(&mut out, cs[i]);
            assert(cs@.subrange(from as int, i as int).push(cs@[i as int]) =~= cs@.subrange(
                from as int,
                i + 1,
            ));
            i = i + 1;
        }
        out
    }

    /// Whether the printable ASCII run starting at `from` is at least `k`
    /// characters long.
    fn ascii_run_reaches(cs: &Vec<char>, from: usize, k: usize) -> (r: bool)
        requires
            from <= cs@.len(),
        ensures
            r == (ascii_run(cs@.skip(from as int)) >= k),
    {
        proof {
            lemma_ascii_run_reaches(cs@.skip(from as int), k as int);
        }
        let len = cs.len();
        if len - from < k {
            return false;
        }
        let mut i: usize = 0;
        while i < k
            invariant
                len == cs@.len(),
                from + k <= len,
                i <= k,
                forall|t: int| 0 <= t < i ==> is_printable_ascii(#[trigger] cs@.skip(from as int)[t]),
            decreases k - i,
        {
            let u = cs[from + i] as u32;
            if !(0x20 <= u && u < 0x7f) {
                proof {
                    assert(!is_printable_ascii(cs@.skip(from as int)[i as int]));
                    lemma_ascii_run_reaches(cs@.skip(from as int), k as int);
                }
                return false;
            }
            i = i + 1;
        }
        true
    }

    /// Whether the scalar fast path can take the text starting at `from`.
    fn scalar_starts_at(cs: &Vec<char>, from: usize) -> (r: bool)
        requires
            from <= cs@.len(),
        ensures
            r == scalar_run_starts(cs@.skip(from as int)),
    {
        if from >= cs.len() {
            return false;
        }
        if standalone_width(cs[from]).is_none() {
            return false;
        }
        from + 1 == cs.len() || standalone_width(cs[from + 1]).is_some()
    }

    /// Set a string starting at `(x, y)` with the given style, up to the end
    /// of the row. Returns the number of columns consumed.
    pub fn set_string(&mut self, x: u16, y: u16, string: &str, style: Style) -> (r: u16)
        requires
            old(self).wf(),
        ensures
            final(self).wf(),
            final(self).spec_area() == old(self).spec_area(),
            final(self).links() == old(self).links(),
            set_string_result(
                old(self),
                final(self),
                x as int,
                y as int,
                string@,
                sat_sub(old(self).spec_area().spec_right(), x as int),
                style,
                r as int,
            ),
    {
        let right = self.area.right();
        self.set_string_truncated(x, y, string, right.saturating_sub(x), style)
    }

    /// Set a string with a maximum width, truncating if necessary.
    ///
    /// The string is cut into pieces (see `segment`), which are laid into
    /// the row from `(x, y)` on: a piece of width `w` puts its text in one
    /// cell and leaves the next `w - 1` cells empty, so the backend knows to
    /// emit nothing there; `style` is applied to every cell written.
    /// Zero-width clusters are skipped, and writing ends at the first piece
    /// that does not fit in `max_width` columns or in the row. Returns the
    /// number of columns consumed.
    ///
    /// Runs of printable ASCII are written one cell per byte with no grapheme
    /// segmentation and no width lookup, and characters that always stand
    /// alone skip the segmenter too; the segmenter is only invoked for the
    /// stretches that actually need it.
    pub fn set_string_truncated(
        &mut self,
        x: u16,
        y: u16,
        string: &str,
        max_width: u16,
        style: Style,
    ) -> (r: u16)
        requires
            old(self).wf(),
        ensures
            final(self).wf(),
            final(self).spec_area() == old(self).spec_area(),
            final(self).links() == old(self).links(),
            set_string_result(
                old(self),
                final(self),
                x as int,
                y as int,
                string@,
                max_width as int,
                style,
                r as int,
            ),
    {
        let row_start = match self.index_of(x, y) {
            Some(i) => i,
            None => {
                return 0;
            },
        };
        proof {
            lemma_cell_index(self.area, x as int, y as int);
        }
        let row_end = self.row_end(y);
        let limit = if row_start + (max_width as usize) < row_end {
            row_start + (max_width as usize)
        } else {
            row_end
        };
        let ghost room: int = limit - row_start;
        let ghost s = string@;
        let ghost old_content = self.content@;
        let ghost a = self.area;
        let ghost mut done: Seq<Piece> = Seq::empty();
        let cs = str_to_chars(string);
        let n = cs.len();
        let mut pos: usize = 0;
        let mut idx: usize = row_start;
        assert(cs@.skip(0) =~= cs@);
        loop
            invariant_except_break
                pos <= n,
                fit(pieces(s), room) == done + fit(pieces(cs@.skip(pos as int)), room - (idx
                    - row_start)),
            invariant
                cs@ == s,
                n == cs@.len(),
                self.wf(),
                self.area == a,
                self.links == old(self).links,
                old_content == old(self).content@,
                row_start <= idx <= limit <= self.content@.len(),
                limit - row_start == room,
                limit - row_start <= max_width,
                piece_cells(done).len() == idx - row_start,
                wrote(old_content, self.content@, row_start as int, piece_cells(done), style),
            ensures
                fit(pieces(s), room) == done,
            decreases n - pos,
        {
            if pos >= n {
                assert(cs@.skip(pos as int) =~= Seq::<char>::empty());
                break;
            }
            if idx >= limit {
                proof {
                    lemma_fit_no_room(pieces(cs@.skip(pos as int)), room - (idx - row_start));
                }
                break;
            }
            let ghost rest = cs@.skip(pos as int);
            assert(rest[0] == cs@[pos as int]);
            assert(pos + 1 < n ==> rest[1] == cs@[pos + 1]);
            assert(rest.drop_first() =~= cs@.skip(pos + 1));
            let c = cs[pos];
            let u = c as u32;
            let ascii_next = pos + 1 == n || {
                let v = cs[pos + 1] as u32;
                0x20 <= v && v < 0x7f
            };
            if 0x20 <= u && u < 0x7f && ascii_next {
                // Printable ASCII: one byte, one cell.
                let ghost p = Piece { text: seq![c], width: 1, halt: false };
                let ghost before = self.content@;
                proof {
                    assert(pieces(rest) == seq![p] + pieces(rest.drop_first()));
                    lemma_fit_cons(p, pieces(rest.drop_first()), room - (idx - row_start));
                }
                self.put_piece(idx, 1, Symbol::from_char(c), style);
                proof {
                    lemma_piece_cells_push(done, p);
                    self.lemma_wrote_extend(old_content, before, row_start as int, piece_cells(done), p, style);
                    assert(done.push(p) =~= done + seq![p]);
                    assert((done + seq![p]) + fit(pieces(cs@.skip(pos + 1)), room - (idx + 1 - row_start))
                        =~= done + (seq![p] + fit(pieces(cs@.skip(pos + 1)), room - (idx + 1 - row_start))));
                    done = done.push(p);
                }
                idx = idx + 1;
                pos = pos + 1;
                continue;
            }
            if Self::scalar_starts_at(&cs, pos) {
                // A character that always stands alone, followed by another.
                let w = standalone_width(c).unwrap();
                let ghost p = Piece { text: seq![c], width: w as nat, halt: false };
                proof {
                    if w == 0 {
                        assert(pieces(rest) == seq![Piece { text: seq![c], width: 0, halt: true }]);
                        lemma_fit_cons(Piece { text: seq![c], width: 0, halt: true }, Seq::empty(), room - (idx - row_start));
                        assert(seq![Piece { text: seq![c], width: 0, halt: true }] + Seq::<Piece>::empty()
                            =~= seq![Piece { text: seq![c], width: 0, halt: true }]);
                    } else {
                        assert(pieces(rest) == seq![p] + pieces(rest.drop_first()));
                        lemma_fit_cons(p, pieces(rest.drop_first()), room - (idx - row_start));
                    }
                    assert(done + Seq::<Piece>::empty() =~= done);
                }
                if w == 0 || (w as usize) > limit - idx {
                    break;
                }
                let ghost before = self.content@;
                self.put_piece(idx, w as usize, Symbol::from_char(c), style);
                proof {
                    lemma_piece_cells_push(done, p);
                    self.lemma_wrote_extend(old_content, before, row_start as int, piece_cells(done), p, style);
                    assert((done + seq![p]) + fit(pieces(cs@.skip(pos + 1)), room - (idx + w - row_start))
                        =~= done + (seq![p] + fit(pieces(cs@.skip(pos + 1)), room - (idx + w - row_start))));
                    assert(done.push(p) =~= done + seq![p]);
                    done = done.push(p);
                }
                idx = idx + (w as usize);
                pos = pos + 1;
                continue;
            }
            // A stretch for the segmenter, handed back as soon as text the
            // fast paths can take starts again.
            let tail_text = Self::suffix_string(&cs, pos);
            let gs = graphemes(tail_text.as_str());
            let ghost gsv = gs@.map_values(|g: String| g@);
            assert(gsv =~= grapheme_clusters(rest));
            assert(pieces(rest) == seg_pieces(gsv, rest, rest.len()));
            let ghost n0: nat = rest.len();
            let mut j: usize = 0;
            let mut consumed: usize = 0;
            let mut halted = false;
            assert(gsv.skip(0) =~= gsv);
            assert(cs@.skip(pos + 0) =~= rest);
            proof {
                lemma_ascii_run_reaches(rest, 2);
            }
            loop
                invariant_except_break
                    !halted,
                    fit(pieces(s), room) == done + fit(
                        seg_pieces(gsv.skip(j as int), cs@.skip(pos + consumed), n0),
                        room - (idx - row_start),
                    ),
                invariant
                    cs@ == s,
                    n == cs@.len(),
                    self.wf(),
                    self.area == a,
                    self.links == old(self).links,
                    old_content == old(self).content@,
                    row_start <= idx <= limit <= self.content@.len(),
                    limit - row_start == room,
                    limit - row_start <= max_width,
                    piece_cells(done).len() == idx - row_start,
                    wrote(old_content, self.content@, row_start as int, piece_cells(done), style),
                    pos < n,
                    rest == cs@.skip(pos as int),
                    n0 == rest.len(),
                    gsv == gs@.map_values(|g: String| g@),
                    gsv == grapheme_clusters(rest),
                    concat(gsv) == rest,
                    forall|t: int| 0 <= t < gs@.len() ==> #[trigger] gs@[t]@.len() > 0,
                    j <= gs@.len(),
                    pos + consumed <= n,
                    concat(gsv.skip(j as int)) == cs@.skip(pos + consumed),
                    j == 0 ==> consumed == 0,
                    j > 0 ==> consumed > 0,
                    !scalar_run_starts(rest),
                    !(ascii_run(rest) >= 2),
                    fit(pieces(s), room) == done + fit(seg_pieces(gsv, rest, n0), room - (idx - row_start)) || j > 0,
                ensures
                    halted ==> fit(pieces(s), room) == done,
                    !halted ==> pos + consumed <= n && fit(pieces(s), room) == done + fit(
                        pieces(cs@.skip(pos + consumed)),
                        room - (idx - row_start),
                    ),
                    !halted && consumed == 0 ==> gs@.len() == 0 || idx >= limit,
                decreases gs@.len() - j,
            {
                if idx >= limit {
                    proof {
                        lemma_fit_no_room(pieces(cs@.skip(pos + consumed)), room - (idx - row_start));
                        lemma_fit_no_room(seg_pieces(gsv.skip(j as int), cs@.skip(pos + consumed), n0), room - (idx - row_start));
                    }
                    break;
                }
                if j >= gs.len() {
                    proof {
                        assert(gsv.skip(j as int) =~= Seq::<Seq<char>>::empty());
                        assert(cs@.skip(pos + consumed).len() == 0);
                        assert(cs@.skip(pos + consumed) =~= Seq::<char>::empty());
                        assert(done + Seq::<Piece>::empty() =~= done);
                        if j == 0 {
                            assert(gsv.len() == 0);
                            assert(seg_pieces(gsv, rest, n0) == Seq::<Piece>::empty());
                        }
                    }
                    break;
                }
                let g = &gs[j];
                let ghost tail = cs@.skip(pos + consumed);
                proof {
                    lemma_concat_step(gsv, j as int);
                    assert(gsv[j as int] == g@);
                    assert(tail =~= g@ + concat(gsv.skip(j + 1)));
                    assert(gsv.skip(j as int)[0] == g@);
                    assert(gsv.skip(j as int).drop_first() =~= gsv.skip(j + 1));
                }
                let gcs = str_to_chars(g.as_str());
                let glen = gcs.len();
                let lone_ascii = glen == 1 && (gcs[0] as u32) < 0x80;
                let ends = (lone_ascii && Self::ascii_run_reaches(&cs, pos + consumed, 4))
                    || Self::scalar_starts_at(&cs, pos + consumed);
                assert(ends == stretch_ends(g@, tail));
                if ends {
                    proof {
                        if j == 0 {
                            assert(false);
                        }
                        assert(seg_pieces(gsv.skip(j as int), tail, n0) == pieces(tail));
                    }
                    break;
                }
                let w = grapheme_width(g.as_str());
                let ghost p = Piece { text: g@, width: w as nat, halt: false };
                proof {
                    let later_ps = seg_pieces(gsv.skip(j + 1), cs@.skip(pos + consumed + glen), n0);
                    assert(cs@.skip(pos + consumed + glen) =~= tail.skip(glen as int));
                    assert(seg_pieces(gsv.skip(j as int), tail, n0) == seq![p] + later_ps);
                    lemma_fit_cons(p, later_ps, room - (idx - row_start));
                    assert(done + Seq::<Piece>::empty() =~= done);
                }
                if w == 0 {
                    proof {
                        assert(cs@.skip(pos + consumed + glen) =~= tail.skip(glen as int));
                    }
                    consumed = consumed + glen;
                    j = j + 1;
                    continue;
                }
                if (w as usize) > limit - idx {
                    halted = true;
                    break;
                }
                let ghost before = self.content@;
                self.put_piece(idx, w as usize, Symbol::new(g.as_str()), style);
                proof {
                    lemma_piece_cells_push(done, p);
                    self.lemma_wrote_extend(old_content, before, row_start as int, piece_cells(done), p, style);
                    assert(cs@.skip(pos + consumed + glen) =~= tail.skip(glen as int));
                    let later = fit(seg_pieces(gsv.skip(j + 1), cs@.skip(pos + consumed + glen), n0), room - (idx + w - row_start));
                    assert((done + seq![p]) + later =~= done + (seq![p] + later));
                    assert(done.push(p) =~= done + seq![p]);
                    done = done.push(p);
                }
                idx = idx + (w as usize);
                consumed = consumed + glen;
                j = j + 1;
            }
            if halted {
                break;
            }
            if consumed == 0 {
                proof {
                    if gs@.len() == 0 {
                        assert(seg_pieces(gsv, rest, n0) == Seq::<Piece>::empty());
                    } else {
                        lemma_fit_no_room(pieces(rest), room - (idx - row_start));
                    }
                }
                break;
            }
            pos = pos + consumed;
        }
        proof {
            let w = a.width as int;
            let row = y - a.y;
            let col = x - a.x;
            assert((row + 1) * w - (row * w + col) == w - col) by (nonlinear_arith);
        }
        (idx - row_start) as u16
    }

    /// `wrote` grows by one piece at its end.
    proof fn lemma_wrote_extend(
        &self,
        old_content: Seq<Cell>,
        before: Seq<Cell>,
        start: int,
        syms: Seq<Seq<char>>,
        p: Piece,
        style: Style,
    )
        requires
            wrote(old_content, before, start, syms, style),
            wrote(before, self.content@, start + syms.len(), cells_of(p), style),
            p.width >= 1,
            0 <= start,
            start + syms.len() + p.width <= old_content.len(),
        ensures
            wrote(old_content, self.content@, start, syms + cells_of(p), style),
    {
        let all = syms + cells_of(p);
        assert forall|i: int| 0 <= i < old_content.len() implies if start <= i < start + all.len() {
            stamped(old_content[i], #[trigger] self.content@[i], all[i - start], style)
        } else {
            self.content@[i] == old_content[i]
        } by {
            if start <= i < start + syms.len() {
                assert(all[i - start] == syms[i - start]);
                assert(before[i] == self.content@[i]);
            } else if start + syms.len() <= i < start + all.len() {
                assert(all[i - start] == cells_of(p)[i - start - syms.len()]);
                assert(before[i] == old_content[i]);
            }
        }
    }

    /// Write one grapheme at `(x, y)`, returning the columns it consumed.
    ///
    /// This is the single-cell counterpart to `fill`: the caller has already
    /// decided what the glyph is, so nothing is scanned or segmented.
    pub fn set_grapheme(&mut self, x: u16, y: u16, symbol: &str, style: Style) -> (r: u16)
        requires
            old(self).wf(),
        ensures
            final(self).wf(),
            final(self).spec_area() == old(self).spec_area(),
            final(self).links() == old(self).links(),
            set_symbol_result(old(self), final(self), x as int, y as int, symbol@, style, r as int),
    {
        self.set_symbol(x, y, Symbol::new(symbol), style)
    }

    /// Write an already-converted `Symbol` at `(x, y)`.
    ///
    /// Wide glyphs claim the following cells, which are left empty so the
    /// backend knows not to emit anything for them; at the end of the row
    /// the glyph keeps only the cells that remain.
    pub fn set_symbol(&mut self, x: u16, y: u16, symbol: Symbol, style: Style) -> (r: u16)
        requires
            old(self).wf(),
        ensures
            final(self).wf(),
            final(self).spec_area() == old(self).spec_area(),
            final(self).links() == old(self).links(),
            set_symbol_result(old(self), final(self), x as int, y as int, symbol@, style, r as int),
    {
        let width = grapheme_width(symbol.as_str());
        if width == 0 {
            return 0;
        }
        let idx = match self.index_of(x, y) {
            Some(i) => i,
            None => {
                return 0;
            },
        };
        proof {
            lemma_cell_index(self.area, x as int, y as int);
            let w = self.area.width as int;
            let row = y - self.area.y;
            let col = x - self.area.x;
            assert((row + 1) * w - (row * w + col) == w - col) by (nonlinear_arith);
        }
        let row_end = self.row_end(y);
        let end = if idx + (width as usize) < row_end {
            idx + (width as usize)
        } else {
            row_end
        };
        if end <= idx {
            return 0;
        }
        self.put_piece(idx, end - idx, symbol, style);
        (end - idx) as u16
    }

    /// The text of one row, without styling.
    ///
    /// Each cell contributes its symbol, so a double-width grapheme gives one
    /// character and its empty trailing cell nothing. Returns an empty string
    /// when `y` is outside the buffer.
    pub fn row_text(&self, y: u16) -> (r: String)
        requires
            self.wf(),
        ensures
            r@ == row_text_spec(self.cells(), self.spec_area(), y as int),
    {
        let mut out = String::new();
        let right = self.area.right();
        let mut x = self.area.x;
        while x < right
            invariant
                self.wf(),
                right == self.area.spec_right(),
                self.area.x <= x <= right || (self.area.x > right && x == self.area.x),
                out@ == row_text_upto(self.content@, self.area, y as int, x - self.area.x),
            decreases right - x,
        {
            match self.cell(Position::new(x, y)) {
                Some(cell) => {
                    crate::base::chars::string_push_str(&mut out, cell.symbol.as_str());
                },
                None => {},
            }
            x = x + 1;
        }
        out
    }

    /// The whole buffer as plain text, one line per row, joined by `\n`.
    ///
    /// This is the readback half of rendering: draw a frame into a buffer
    /// and compare what came out against what was expected, without a
    /// terminal and without parsing escape sequences.
    pub fn to_text(&self) -> (r: String)
        requires
            self.wf(),
        ensures
            r@ == text_upto(
                self.cells(),
                self.spec_area(),
                self.spec_area().spec_bottom() - self.spec_area().y,
            ),
    {
        let mut out = String::new();
        let bottom = self.area.bottom();
        let mut y = self.area.y;
        while y < bottom
            invariant
                self.wf(),
                bottom == self.area.spec_bottom(),
                self.area.y <= y <= bottom,
                out@ == text_upto(self.content@, self.area, y - self.area.y),
            decreases bottom - y,
        {
            if y != self.area.y {
                crate::base::chars::string_push(&mut out, '\n');
            }
            let row = self.row_text(y);
            crate::base::chars::string_push_str(&mut out, row.as_str());
            y = y + 1;
        }
        out
    }

    /// Attach a hyperlink to the cells `[x, x + width)` of row `y`.
    ///
    /// Terminals that support OSC 8 render those cells as a clickable link;
    /// everywhere else the text is unaffected.
    pub fn set_hyperlink(&mut self, x: u16, y: u16, width: u16, url: &str)
        requires
            old(self).wf(),
        ensures
            final(self).wf(),
            final(self).spec_area() == old(self).spec_area(),
            final(self).cells() == old(self).cells(),
            final(self).links() == with_link(
                old(self).links(),
                link_span(old(self).spec_area(), x as int, y as int, width as int, url@),
                url@,
            ),
    {
        proof {
            broadcast use vstd::std_specs::hash::group_hash_axioms;
        }
        if width == 0 || url.is_empty() {
            proof {
                assert(with_link(self.links(), (0, 0), url@) =~= self.links());
            }
            return;
        }
        let idx = match self.index_of(x, y) {
            Some(i) => i,
            None => {
                proof {
                    assert(with_link(self.links(), (0, 0), url@) =~= self.links());
                }
                return;
            },
        };
        proof {
            lemma_cell_index(self.area, x as int, y as int);
            let w = self.area.width as int;
            let row = y - self.area.y;
            let col = x - self.area.x;
            assert((row + 1) * w - (row * w + col) == w - col) by (nonlinear_arith);
        }
        let right = x.saturating_add(width);
        let row_end = self.row_end(y);
        let end = if idx + ((right - x) as usize) < row_end {
            idx + ((right - x) as usize)
        } else {
            row_end
        };
        let ghost old_links = self.links();
        let mut k = idx;
        while k < end
            invariant
                self.wf(),
                self.area == old(self).area,
                self.content == old(self).content,
                idx <= k <= end <= self.content@.len(),
                self.content@.len() <= 65535 * 65535,
                self.links() == with_link(old_links, (idx as int, k as int), url@),
            decreases end - k,
        {
            let ghost before = self.links@;
            let u: String = url.to_owned();
            let ghost uu = u;
            self.links.insert(k as u32, u);
            proof {
                assert(k as u32 == k);
                assert(self.links@ == before.insert(k as u32, uu));
                lemma_view_links_insert(before, k as u32, uu);
                assert(with_link(old_links, (idx as int, k + 1), url@) =~= with_link(
                    old_links,
                    (idx as int, k as int),
                    url@,
                ).insert(k as u32, url@));
                assert(self.links() == with_link(old_links, (idx as int, k + 1), url@));
                assert forall|q: u32| #[trigger] self.links().contains_key(q) implies q
                    < self.content@.len() by {
                    if q != k as u32 {
                        assert(before.map_values(|u: String| u@).contains_key(q));
                    }
                }
            }
            k = k + 1;
        }
    }

    /// The hyperlink target of the cell at `(x, y)`, if any.
    pub open spec fn link_at(&self, x: int, y: int) -> Option<Seq<char>> {
        match cell_index(self.spec_area(), x, y) {
            Some(i) => self.links().get(i as u32),
            None => None,
        }
    }

    /// The hyperlink attached to the cell at `(x, y)`, if any.
    pub fn hyperlink_at(&self, x: u16, y: u16) -> (r: Option<&str>)
        requires
            self.wf(),
        ensures
            match r {
                Some(u) => self.link_at(x as int, y as int) == Some(u@),
                None => self.link_at(x as int, y as int) is None,
            },
    {
        proof {
            broadcast use vstd::std_specs::hash::group_hash_axioms;
        }
        if self.links.is_empty() {
            proof {
                if let Some(i) = cell_index(self.area, x as int, y as int) {
                    assert(!self.links@.dom().contains(i as u32));
                }
            }
            return None;
        }
        let idx = match self.index_of(x, y) {
            Some(i) => i,
            None => {
                return None;
            },
        };
        proof {
            lemma_cell_index(self.area, x as int, y as int);
            assert(idx as u32 == idx);
        }
        match self.links.get(&(idx as u32)) {
            Some(u) => Some(u.as_str()),
            None => None,
        }
    }

    /// Pair each changed cell with the hyperlink covering it, for the backend.
    pub fn attach_hyperlinks<'a>(&'a self, changes: &[(u16, u16, &'a Cell)]) -> (r: Vec<
        (u16, u16, &'a Cell, Option<&'a str>),
    >)
        requires
            self.wf(),
        ensures
            r@.len() == changes@.len(),
            forall|k: int|
                0 <= k < changes@.len() ==> {
                    &&& (#[trigger] r@[k]).0 == changes@[k].0
                    &&& r@[k].1 == changes@[k].1
                    &&& r@[k].2 == changes@[k].2
                    &&& match r@[k].3 {
                        Some(u) => self.link_at(r@[k].0 as int, r@[k].1 as int) == Some(u@),
                        None => self.link_at(r@[k].0 as int, r@[k].1 as int) is None,
                    }
                },
    {
        let mut out: Vec<(u16, u16, &'a Cell, Option<&'a str>)> = Vec::new();
        let mut k: usize = 0;
        while k < changes.len()
            invariant
                self.wf(),
                k <= changes@.len(),
                out@.len() == k,
                forall|t: int|
                    0 <= t < k ==> {
                        &&& (#[trigger] out@[t]).0 == changes@[t].0
                        &&& out@[t].1 == changes@[t].1
                        &&& out@[t].2 == changes@[t].2
                        &&& match out@[t].3 {
                            Some(u) => self.link_at(out@[t].0 as int, out@[t].1 as int) == Some(u@),
                            None => self.link_at(out@[t].0 as int, out@[t].1 as int) is None,
                        }
                    },
            decreases changes@.len() - k,
        {
            let (x, y, cell) = changes[k];
            let link = self.hyperlink_at(x, y);
            out.push((x, y, cell, link));
            k = k + 1;
        }
        out
    }

    /// Remove every hyperlink in this buffer.
    pub fn clear_hyperlinks(&mut self)
        requires
            old(self).wf(),
        ensures
            final(self).wf(),
            final(self).spec_area() == old(self).spec_area(),
            final(self).cells() == old(self).cells(),
            final(self).links() == Map::<u32, Seq<char>>::empty(),
    {
        self.links.clear();
        proof {
            self.lemma_no_links();
        }
    }

    /// Whether any cell in this buffer carries a hyperlink.
    pub fn has_hyperlinks(&self) -> (r: bool)
        ensures
            r == !self.links().is_empty(),
    {
        proof {
            assert(self.links().dom() =~= self.links@.dom());
        }
        !self.links.is_empty()
    }

    /// Compute the diff between this buffer and another: the cells of
    /// `other` that differ from this buffer, with their positions.
    pub fn diff<'a>(&'a self, other: &'a Buffer) -> (r: Vec<(u16, u16, &'a Cell)>)
        requires
            self.wf(),
            other.wf(),
            diff_in_range(self, other),
        ensures
            r@.len() == diff_spec(self, other).len(),
            forall|k: int|
                0 <= k < r@.len() ==> {
                    &&& (#[trigger] r@[k]).0 == diff_spec(self, other)[k].0
                    &&& r@[k].1 == diff_spec(self, other)[k].1
                    &&& *r@[k].2 == diff_spec(self, other)[k].2
                },
    {
        proof {
            broadcast use vstd::std_specs::hash::group_hash_axioms;
        }
        let mut changes: Vec<(u16, u16, &'a Cell)> = Vec::new();
        if self.area == other.area {
            let width = self.area.width as usize;
            if width == 0 {
                proof {
                    assert(self.content@.len() == 0) by (nonlinear_arith)
                        requires
                            self.content@.len() == self.area.width * self.area.height,
                            self.area.width == 0,
                    ;
                }
                return changes;
            }
            // Only consult the link tables when at least one buffer has links;
            // the common case pays nothing for this.
            let check_links = !self.links.is_empty() || !other.links.is_empty();
            let ghost check = !self.links().is_empty() || !other.links().is_empty();
            proof {
                assert(self.links().dom() =~= self.links@.dom());
                assert(other.links().dom() =~= other.links@.dom());
            }
            let n = self.content.len();
            proof {
                self.lemma_len_bound();
            }
            let mut i: usize = 0;
            while i < n
                invariant
                    self.wf(),
                    other.wf(),
                    diff_in_range(self, other),
                    self.area == other.area,
                    width == self.area.width,
                    width > 0,
                    check_links == check,
                    check == (!self.links().is_empty() || !other.links().is_empty()),
                    n == self.content@.len(),
                    n == other.content@.len(),
                    n <= 65535 * 65535,
                    i <= n,
                    changes@.len() == diff_flat(self, other, check, i as int).len(),
                    forall|k: int|
                        0 <= k < changes@.len() ==> {
                            &&& (#[trigger] changes@[k]).0 == diff_flat(self, other, check, i as int)[k].0
                            &&& changes@[k].1 == diff_flat(self, other, check, i as int)[k].1
                            &&& *changes@[k].2 == diff_flat(self, other, check, i as int)[k].2
                        },
                decreases n - i,
            {
                let a = &self.content[i];
                let b = &other.content[i];
                let mut differs = !a.same_as(b);
                if !differs && check_links {
                    proof {
                        assert(i as u32 == i);
                    }
                    let la = self.links.get(&(i as u32));
                    let lb = other.links.get(&(i as u32));
                    differs = match (la, lb) {
                        (Some(u), Some(v)) => !(*u == *v),
                        (None, None) => false,
                        _ => true,
                    };
                    proof {
                        assert(differs == (self.links().get(i as u32) != other.links().get(i as u32)));
                    }
                }
                let ghost prev = diff_flat(self, other, check, i as int);
                if differs {
                    proof {
                        vstd::arithmetic::div_mod::lemma_fundamental_div_mod(i as int, width as int);
                        assert(0 <= i as int % width as int) by {
                            vstd::arithmetic::div_mod::lemma_mod_bound(i as int, width as int);
                        }
                        vstd::arithmetic::div_mod::lemma_div_pos_is_pos(i as int, width as int);
                    }
                    let x = (self.area.x as usize + i % width) as u16;
                    let y = (self.area.y as usize + i / width) as u16;
                    changes.push((x, y, b));
                    proof {
                        assert(diff_flat(self, other, check, i + 1) == prev + seq![
                            (index_x(self.area, i as int) as u16, index_y(self.area, i as int) as u16, other.content@[i as int]),
                        ]);
                    }
                } else {
                    proof {
                        assert(diff_flat(self, other, check, i + 1) =~= prev);
                    }
                }
                i = i + 1;
            }
            return changes;
        }
        let inter = self.area.intersection(other.area);
        let bottom = inter.bottom();
        let right = inter.right();
        proof {
            assert forall|px: int, py: int| #[trigger]
                inter.spec_contains(px, py) <==> (self.area.spec_contains(px, py)
                    && other.area.spec_contains(px, py)) by {
                crate::base::rect::lemma_intersection_contains(self.area, other.area, px, py);
            }
        }
        let mut y = inter.y;
        while y < bottom
            invariant
                self.wf(),
                other.wf(),
                self.area != other.area,
                inter == self.area.spec_intersection(other.area),
                bottom == inter.spec_bottom(),
                right == inter.spec_right(),
                inter.y <= y <= bottom || (inter.y > bottom && y == inter.y),
                changes@.len() == diff_rows(self, other, y - inter.y).len(),
                forall|k: int|
                    0 <= k < changes@.len() ==> {
                        &&& (#[trigger] changes@[k]).0 == diff_rows(self, other, y - inter.y)[k].0
                        &&& changes@[k].1 == diff_rows(self, other, y - inter.y)[k].1
                        &&& *changes@[k].2 == diff_rows(self, other, y - inter.y)[k].2
                    },
            decreases bottom - y,
        {
            let ghost before = diff_rows(self, other, y - inter.y);
            let mut x = inter.x;
            while x < right
                invariant
                    self.wf(),
                    other.wf(),
                    inter == self.area.spec_intersection(other.area),
                    bottom == inter.spec_bottom(),
                    right == inter.spec_right(),
                    inter.y <= y < bottom,
                    inter.x <= x <= right || (inter.x > right && x == inter.x),
                    changes@.len() == before.len() + diff_row(self, other, y as int, inter.x as int, x - inter.x).len(),
                    forall|k: int|
                        0 <= k < changes@.len() ==> {
                            &&& (#[trigger] changes@[k]).0 == (before + diff_row(self, other, y as int, inter.x as int, x - inter.x))[k].0
                            &&& changes@[k].1 == (before + diff_row(self, other, y as int, inter.x as int, x - inter.x))[k].1
                            &&& *changes@[k].2 == (before + diff_row(self, other, y as int, inter.x as int, x - inter.x))[k].2
                        },
                decreases right - x,
            {
                let ghost prev = before + diff_row(self, other, y as int, inter.x as int, x - inter.x);
                match (self.index_of(x, y), other.index_of(x, y)) {
                    (Some(a), Some(b)) => {
                        if !self.content[a].same_as(&other.content[b]) {
                            changes.push((x, y, &other.content[b]));
                            proof {
                                assert(before + diff_row(self, other, y as int, inter.x as int, x + 1 - inter.x)
                                    =~= prev + seq![(x, y, other.content@[b as int])]);
                            }
                        } else {
                            proof {
                                assert(before + diff_row(self, other, y as int, inter.x as int, x + 1 - inter.x) =~= prev);
                            }
                        }
                    },
                    _ => {
                        proof {
                            assert(before + diff_row(self, other, y as int, inter.x as int, x + 1 - inter.x) =~= prev);
                        }
                    },
                }
                x = x + 1;
            }
            proof {
                if inter.x > right {
                    assert(inter.spec_right() - inter.x <= 0);
                }
                assert(diff_rows(self, other, y + 1 - inter.y) =~= before + diff_row(
                    self,
                    other,
                    y as int,
                    inter.x as int,
                    inter.spec_right() - inter.x,
                ));
            }
            y = y + 1;
        }
        proof {
            if inter.y > bottom {
                assert(diff_rows(self, other, inter.spec_bottom() - inter.y) =~= Seq::<(u16, u16, Cell)>::empty());
            }
        }
        changes
    }

    /// Merge another buffer on top of this one at its area position: every
    /// cell of the overlap takes the other buffer's cell, and, when the other
    /// buffer has hyperlinks, its hyperlink (or none).
    pub fn merge(&mut self, other: &Buffer)
        requires
            old(self).wf(),
            other.wf(),
        ensures
            final(self).wf(),
            final(self).spec_area() == old(self).spec_area(),
            final(self).cells().len() == old(self).cells().len(),
            forall|i: int|
                0 <= i < old(self).cells().len() ==> #[trigger] final(self).cells()[i] == if in_overlap(
                    old(self),
                    other,
                    i,
                ) {
                    other.cells()[source_index(old(self), other, i)]
                } else {
                    old(self).cells()[i]
                },
            final(self).links() == if other.links().is_empty() {
                old(self).links()
            } else {
                merged_links(old(self), other)
            },
    {
        proof {
            assert(other.links().dom() =~= other.links@.dom());
        }
        if !other.links.is_empty() {
            self.merge_links(other);
        }
        let ghost a = self.area;
        let ghost mid = *self;
        let ghost old_content = self.content@;
        let inter = self.area.intersection(other.area);
        let bottom = inter.bottom();
        let right = inter.right();
        proof {
            assert forall|px: int, py: int| #[trigger]
                inter.spec_contains(px, py) <==> (a.spec_contains(px, py)
                    && other.area.spec_contains(px, py)) by {
                crate::base::rect::lemma_intersection_contains(a, other.area, px, py);
            }
        }
        let mut y = inter.y;
        while y < bottom
            invariant
                self.wf(),
                other.wf(),
                self.area == a,
                self.links == mid.links,
                old_content == mid.content@,
                old_content.len() == old(self).content@.len(),
                self.content@.len() == old_content.len(),
                inter == a.spec_intersection(other.area),
                bottom == inter.spec_bottom(),
                right == inter.spec_right(),
                inter.y <= y <= bottom || (inter.y > bottom && y == inter.y),
                forall|px: int, py: int| #[trigger]
                    inter.spec_contains(px, py) <==> (a.spec_contains(px, py)
                        && other.area.spec_contains(px, py)),
                forall|i: int|
                    0 <= i < old_content.len() ==> #[trigger] self.content@[i] == if index_in(
                        a,
                        other.area,
                        i,
                    ) && index_y(a, i) < y {
                        other.content@[cell_index(other.area, index_x(a, i), index_y(a, i))->0]
                    } else {
                        old_content[i]
                    },
            decreases bottom - y,
        {
            let mut x = inter.x;
            while x < right
                invariant
                    self.wf(),
                    other.wf(),
                    self.area == a,
                    self.links == mid.links,
                    self.content@.len() == old_content.len(),
                    inter == a.spec_intersection(other.area),
                    bottom == inter.spec_bottom(),
                    right == inter.spec_right(),
                    inter.y <= y < bottom,
                    inter.x <= x <= right || (inter.x > right && x == inter.x),
                    forall|px: int, py: int| #[trigger]
                        inter.spec_contains(px, py) <==> (a.spec_contains(px, py)
                            && other.area.spec_contains(px, py)),
                    forall|i: int|
                        0 <= i < old_content.len() ==> #[trigger] self.content@[i] == if index_in(
                            a,
                            other.area,
                            i,
                        ) && (index_y(a, i) < y || (index_y(a, i) == y && index_x(a, i) < x)) {
                            other.content@[cell_index(other.area, index_x(a, i), index_y(a, i))->0]
                        } else {
                            old_content[i]
                        },
                decreases right - x,
            {
                assert(inter.spec_contains(x as int, y as int));
                proof {
                    lemma_cell_index(a, x as int, y as int);
                    lemma_cell_index(other.area, x as int, y as int);
                }
                let dst = self.index_of(x, y).unwrap();
                let src = other.index_of(x, y).unwrap();
                let c = other.content[src].clone();
                let ghost before = *self;
                self.content.set(dst, c);
                proof {
                    self.lemma_same_shape(&before);
                    let w = a.width as int;
                    assert forall|i: int| 0 <= i < old_content.len() && i != dst implies (index_x(
                        a,
                        i,
                    ) != x || index_y(a, i) != y) by {
                        if index_x(a, i) == x && index_y(a, i) == y {
                            vstd::arithmetic::div_mod::lemma_fundamental_div_mod(i, w);
                            let q = i / w;
                            assert(w * q == q * w) by (nonlinear_arith);
                        }
                    }
                }
                x = x + 1;
            }
            y = y + 1;
        }
        proof {
            assert forall|i: int| 0 <= i < old_content.len() && index_in(a, other.area, i) implies index_y(
                a,
                i,
            ) < y by {
                assert(inter.spec_contains(index_x(a, i), index_y(a, i)));
            }
            assert(self.links() == mid.links());
        }
    }

    /// Copy the other buffer's hyperlinks into the overlapping region.
    fn merge_links(&mut self, other: &Buffer)
        requires
            old(self).wf(),
            other.wf(),
        ensures
            final(self).wf(),
            final(self).area == old(self).area,
            final(self).content == old(self).content,
            final(self).links() == merged_links(old(self), other),
    {
        proof {
            broadcast use vstd::std_specs::hash::group_hash_axioms;
            self.lemma_len_bound();
        }
        let ghost a = self.area;
        let ghost old_links = self.links();
        let ghost start = *self;
        let inter = self.area.intersection(other.area);
        let bottom = inter.bottom();
        let right = inter.right();
        proof {
            assert forall|px: int, py: int| #[trigger]
                inter.spec_contains(px, py) <==> (a.spec_contains(px, py)
                    && other.area.spec_contains(px, py)) by {
                crate::base::rect::lemma_intersection_contains(a, other.area, px, py);
            }
        }
        let mut y = inter.y;
        while y < bottom
            invariant
                self.wf(),
                other.wf(),
                self.area == a,
                self.content == start.content,
                start.area == a,
                start.wf(),
                old_links == start.links(),
                self.content@.len() <= 65535 * 65535,
                inter == a.spec_intersection(other.area),
                bottom == inter.spec_bottom(),
                right == inter.spec_right(),
                inter.y <= y <= bottom || (inter.y > bottom && y == inter.y),
                forall|px: int, py: int| #[trigger]
                    inter.spec_contains(px, py) <==> (a.spec_contains(px, py)
                        && other.area.spec_contains(px, py)),
                self.links() == links_merged_upto(&start, other, y as int, 0),
            decreases bottom - y,
        {
            let mut x = inter.x;
            while x < right
                invariant
                    self.wf(),
                    other.wf(),
                    self.area == a,
                    self.content == start.content,
                    start.area == a,
                    start.wf(),
                    old_links == start.links(),
                    self.content@.len() <= 65535 * 65535,
                    inter == a.spec_intersection(other.area),
                    bottom == inter.spec_bottom(),
                    right == inter.spec_right(),
                    inter.y <= y < bottom,
                    inter.x <= x <= right || (inter.x > right && x == inter.x),
                    forall|px: int, py: int| #[trigger]
                        inter.spec_contains(px, py) <==> (a.spec_contains(px, py)
                            && other.area.spec_contains(px, py)),
                    self.links() == links_merged_upto(&start, other, y as int, x as int),
                decreases right - x,
            {
                assert(inter.spec_contains(x as int, y as int));
                proof {
                    lemma_cell_index(a, x as int, y as int);
                    lemma_cell_index(other.area, x as int, y as int);
                    other.lemma_len_bound();
                }
                let dst = self.index_of(x, y).unwrap();
                let src = other.index_of(x, y).unwrap();
                proof {
                    assert(dst as u32 == dst);
                    assert(src as u32 == src);
                }
                let ghost before = self.links@;
                match other.links.get(&(src as u32)) {
                    Some(url) => {
                        let u = url.clone();
                        self.links.insert(dst as u32, u);
                        proof {
                            lemma_view_links_insert(before, dst as u32, u);
                        }
                    },
                    None => {
                        self.links.remove(&(dst as u32));
                        proof {
                            assert(before.remove(dst as u32).map_values(|s: String| s@) =~= before.map_values(|s: String| s@).remove(dst as u32));
                        }
                    },
                }
                proof {
                    self.lemma_merge_step(&start, other, x as int, y as int, dst as int, src as int);
                }
                x = x + 1;
            }
            proof {
                assert(links_merged_upto(&start, other, y as int, right as int) =~= links_merged_upto(&start, other, y + 1, 0)) by {
                    assert forall|k: u32| #[trigger] in_overlap(&start, other, k as int) implies ((index_y(a, k as int) < y || (index_y(a, k as int) == y && index_x(a, k as int) < right)) <==> (index_y(a, k as int) < y + 1 || (index_y(a, k as int) == y + 1 && index_x(a, k as int) < 0))) by {
                        assert(inter.spec_contains(index_x(a, k as int), index_y(a, k as int)));
                    }
                }
            }
            y = y + 1;
        }
        proof {
            assert(links_merged_upto(&start, other, y as int, 0) =~= merged_links(&start, other)) by {
                assert forall|k: u32| #[trigger] in_overlap(&start, other, k as int) implies index_y(a, k as int) < y by {
                    assert(inter.spec_contains(index_x(a, k as int), index_y(a, k as int)));
                }
            }
            assert forall|k: u32| #[trigger] self.links().contains_key(k) implies k < self.content@.len() by {
                if !in_overlap(&start, other, k as int) {
                    assert(start.links().contains_key(k));
                }
            }
        }
    }

    /// One step of `merge_links`: the link of the cell at `(x, y)` is now
    /// that of its counterpart.
    proof fn lemma_merge_step(&self, start: &Buffer, other: &Buffer, x: int, y: int, dst: int, src: int)
        requires
            start.wf(),
            other.wf(),
            self.area == start.area,
            self.content == start.content,
            start.area.spec_contains(x, y),
            other.area.spec_contains(x, y),
            cell_index(start.area, x, y) == Some(dst),
            cell_index(other.area, x, y) == Some(src),
            0 <= dst < start.content@.len(),
            start.content@.len() <= 65535 * 65535,
            0 <= src <= 65535 * 65535,
            dst as u32 == dst,
            src as u32 == src,
            self.links() == (if other.links().contains_key(src as u32) {
                links_merged_upto(start, other, y, x).insert(dst as u32, other.links()[src as u32])
            } else {
                links_merged_upto(start, other, y, x).remove(dst as u32)
            }),
        ensures
            self.links() == links_merged_upto(start, other, y, x + 1),
    {
        let a = start.area;
        let w = a.width as int;
        lemma_cell_index(a, x, y);
        assert forall|k: u32| k as int != dst && #[trigger] in_overlap(start, other, k as int) implies (index_x(a, k as int) != x || index_y(a, k as int) != y) by {
            if index_x(a, k as int) == x && index_y(a, k as int) == y {
                vstd::arithmetic::div_mod::lemma_fundamental_div_mod(k as int, w);
                let q = (k as int) / w;
                assert(w * q == q * w) by (nonlinear_arith);
            }
        }
        assert(in_overlap(start, other, dst));
        assert(source_index(start, other, dst) == src);
        assert(self.links() =~= links_merged_upto(start, other, y, x + 1));
    }

    /// Set a styled line at position: its spans one after another, each in
    /// its own style, until `max_width` columns are used.
    pub fn set_line(&mut self, x: u16, y: u16, line: &Line, max_width: u16) -> (r: u16)
        requires
            old(self).wf(),
            line_in_range(old(self).spec_area(), line.spans@, x as int, y as int, max_width as int, 0),
        ensures
            final(self).wf(),
            final(self).spec_area() == old(self).spec_area(),
            final(self).links() == old(self).links(),
            set_line_result(old(self), final(self), x as int, y as int, line.spans@, max_width as int, r as int),
    {
        let ghost a = self.area;
        let ghost spans = line.spans@;
        let ghost old_content = self.content@;
        let ghost all = line_runs(a, spans, x as int, y as int, max_width as int, 0);
        let ghost mut done: Seq<(Seq<char>, Style)> = Seq::empty();
        let mut col: u16 = 0;
        let mut i: usize = 0;
        assert(spans.skip(0) =~= spans);
        assert(all =~= done + all);
        while i < line.spans.len()
            invariant_except_break
                all == done + line_runs(a, spans.skip(i as int), x as int, y as int, max_width as int, col as int),
                line_in_range(a, spans.skip(i as int), x as int, y as int, max_width as int, col as int),
            invariant
                self.wf(),
                self.area == a,
                self.links() == old(self).links(),
                old_content == old(self).content@,
                spans == line.spans@,
                i <= spans.len(),
                col <= max_width,
                done.len() == col,
                all == line_runs(a, spans, x as int, y as int, max_width as int, 0),
                match cell_index(a, x as int, y as int) {
                    Some(start) => painted(old_content, self.content@, start, done),
                    None => self.content@ == old_content && col == 0,
                },
            ensures
                all == done,
            decreases spans.len() - i,
        {
            let ghost rest = spans.skip(i as int);
            assert(rest[0] == spans[i as int]);
            assert(rest.drop_first() =~= spans.skip(i + 1));
            if col >= max_width {
                break;
            }
            let remaining = max_width - col;
            let ghost before = self.content@;
            let span = &line.spans[i];
            let written = self.set_string_truncated(x + col, y, span.content.as_str(), remaining, span.style);
            proof {
                let syms = match cell_index(a, x + col, y as int) {
                    Some(_) => string_cells(span.content@, min_int(max_width - col, a.x + a.width - (x + col))),
                    None => Seq::empty(),
                };
                let runs = syms.map_values(|sym: Seq<char>| (sym, span.style));
                assert(all == (done + runs) + line_runs(a, spans.skip(i + 1), x as int, y as int, max_width as int, col + written));
                if let Some(start) = cell_index(a, x as int, y as int) {
                    if cell_index(a, x + col, y as int) is Some {
                        lemma_cell_index(a, x + col, y as int);
                        lemma_cell_index(a, x as int, y as int);
                        assert(cell_index(a, x + col, y as int) == Some(start + col));
                        lemma_painted_extend(old_content, before, self.content@, start, done, syms, span.style);
                    } else {
                        assert(runs =~= Seq::<(Seq<char>, Style)>::empty());
                        assert(done + runs =~= done);
                    }
                } else {
                    assert(col == 0);
                    assert(runs =~= Seq::<(Seq<char>, Style)>::empty());
                    assert(done + runs =~= done);
                }
                done = done + runs;
            }
            col = col + written;
            i = i + 1;
        }
        proof {
            if i == spans.len() {
                assert(spans.skip(i as int) =~= Seq::<Span>::empty());
            }
            assert(done + Seq::<(Seq<char>, Style)>::empty() =~= done);
        }
        col
    }

    /// Set a single span at position with a maximum width.
    pub fn set_span(&mut self, x: u16, y: u16, span: &Span, max_width: u16) -> (r: u16)
        requires
            old(self).wf(),
        ensures
            final(self).wf(),
            final(self).spec_area() == old(self).spec_area(),
            final(self).links() == old(self).links(),
            set_string_result(
                old(self),
                final(self),
                x as int,
                y as int,
                span.content@,
                max_width as int,
                span.style,
                r as int,
            ),
    {
        self.set_string_truncated(x, y, span.content.as_str(), max_width, span.style)
    }

    /// Write a string and make it a hyperlink in one step. Returns the
    /// number of columns consumed, like `set_string`.
    pub fn set_string_linked(&mut self, x: u16, y: u16, string: &str, style: Style, url: &str) -> (r: u16)
        requires
            old(self).wf(),
        ensures
            final(self).wf(),
            final(self).spec_area() == old(self).spec_area(),
            exists|mid: Buffer| {
                &&& #[trigger] set_string_result(
                    old(self),
                    &mid,
                    x as int,
                    y as int,
                    string@,
                    sat_sub(old(self).spec_area().spec_right(), x as int),
                    style,
                    r as int,
                )
                &&& final(self).cells() == mid.cells()
            },
            final(self).links() == with_link(
                old(self).links(),
                link_span(old(self).spec_area(), x as int, y as int, r as int, url@),
                url@,
            ),
    {
        let ghost before = *self;
        let width = self.set_string(x, y, string, style);
        let ghost mid = *self;
        self.set_hyperlink(x, y, width, url);
        proof {
            assert(set_string_result(&before, &mid, x as int, y as int, string@, sat_sub(before.spec_area().spec_right(), x as int), style, width as int));
        }
        width
    }

    /// A mutable reference to the cell at `pos`, if within bounds.
    pub fn cell_mut(&mut self, pos: Position) -> (r: Option<&mut Cell>)
        requires
            old(self).wf(),
        ensures
            final(self).spec_area() == old(self).spec_area(),
            final(self).links() == old(self).links(),
            match cell_index(old(self).spec_area(), pos.x as int, pos.y as int) {
                Some(i) => r is Some && *r->0 == old(self).cells()[i] && final(self).cells()
                    == old(self).cells().update(i, *final(r->0)),
                None => r is None && final(self).cells() == old(self).cells(),
            },
    {
        match self.index_of(pos.x, pos.y) {
            Some(i) => Some(&mut self.content[i]),
            None => None,
        }
    }

    /// The cell at `pos`, if within bounds.
    pub fn cell(&self, pos: Position) -> (r: Option<&Cell>)
        requires
            self.wf(),
        ensures
            match cell_index(self.spec_area(), pos.x as int, pos.y as int) {
                Some(i) => r == Some(&self.cells()[i]),
                None => r is None,
            },
    {
        match self.index_of(pos.x, pos.y) {
            Some(i) => Some(&self.content[i]),
            None => None,
        }
    }

    /// Apply `style` to every cell of `area` (symbols are kept).
    pub fn set_style(&mut self, area: Rect, style: Style)
        requires
            old(self).wf(),
        ensures
            final(self).wf(),
            final(self).spec_area() == old(self).spec_area(),
            final(self).links() == old(self).links(),
            final(self).cells().len() == old(self).cells().len(),
            forall|i: int|
                0 <= i < old(self).cells().len() ==> #[trigger] final(self).cells()[i] == if index_in(
                    old(self).spec_area(),
                    area,
                    i,
                ) {
                    styled_cell(old(self).cells()[i], style)
                } else {
                    old(self).cells()[i]
                },
    {
        self.restamp(area, None, style);
    }

    /// Put `symbol` into every cell of `area` and apply `style` to them.
    pub fn fill(&mut self, area: Rect, symbol: &str, style: Style)
        requires
            old(self).wf(),
        ensures
            final(self).wf(),
            final(self).spec_area() == old(self).spec_area(),
            final(self).links() == old(self).links(),
            final(self).cells().len() == old(self).cells().len(),
            forall|i: int|
                0 <= i < old(self).cells().len() ==> if index_in(old(self).spec_area(), area, i) {
                    stamped(old(self).cells()[i], #[trigger] final(self).cells()[i], symbol@, style)
                } else {
                    final(self).cells()[i] == old(self).cells()[i]
                },
    {
        let sym = Symbol::new(symbol);
        self.restamp(area, Some(&sym), style);
    }

    /// Apply `style`, and put `symbol` if there is one, to every cell of
    /// `area`, one row slice at a time.
    fn restamp(&mut self, area: Rect, symbol: Option<&Symbol>, style: Style)
        requires
            old(self).wf(),
        ensures
            final(self).wf(),
            final(self).spec_area() == old(self).spec_area(),
            final(self).links() == old(self).links(),
            final(self).cells().len() == old(self).cells().len(),
            forall|i: int|
                0 <= i < old(self).cells().len() ==> if index_in(old(self).spec_area(), area, i) {
                    match symbol {
                        Some(s) => stamped(
                            old(self).cells()[i],
                            #[trigger] final(self).cells()[i],
                            s@,
                            style,
                        ),
                        None => final(self).cells()[i] == styled_cell(old(self).cells()[i], style),
                    }
                } else {
                    final(self).cells()[i] == old(self).cells()[i]
                },
    {
        let inter = self.area.intersection(area);
        let ghost a = self.area;
        let ghost old_content = self.content@;
        let ghost w = a.width as int;
        let bottom = inter.bottom();
        let right = inter.right();
        proof {
            assert forall|px: int, py: int| #[trigger]
                inter.spec_contains(px, py) <==> (a.spec_contains(px, py) && area.spec_contains(
                    px,
                    py,
                )) by {
                crate::base::rect::lemma_intersection_contains(a, area, px, py);
            }
        }
        let mut y = inter.y;
        while y < bottom
            invariant
                self.wf(),
                self.area == a,
                self.links() == old(self).links(),
                old_content == old(self).cells(),
                self.content@.len() == old_content.len(),
                w == a.width,
                inter == a.spec_intersection(area),
                bottom == inter.spec_bottom(),
                right == inter.spec_right(),
                inter.y <= y <= bottom || (inter.y > bottom && y == inter.y),
                forall|px: int, py: int| #[trigger]
                    inter.spec_contains(px, py) <==> (a.spec_contains(px, py)
                        && area.spec_contains(px, py)),
                forall|i: int|
                    0 <= i < old_content.len() ==> if index_in(a, area, i) && index_y(a, i) < y {
                        match symbol {
                            Some(s) => stamped(
                                old_content[i],
                                #[trigger] self.content@[i],
                                s@,
                                style,
                            ),
                            None => self.content@[i] == styled_cell(old_content[i], style),
                        }
                    } else {
                        self.content@[i] == old_content[i]
                    },
            decreases bottom - y,
        {
            let mut x = inter.x;
            while x < right
                invariant
                    self.wf(),
                    self.area == a,
                    self.links() == old(self).links(),
                    self.content@.len() == old_content.len(),
                    w == a.width,
                    inter == a.spec_intersection(area),
                    bottom == inter.spec_bottom(),
                    right == inter.spec_right(),
                    inter.y <= y < bottom,
                    inter.x <= x <= right || (inter.x > right && x == inter.x),
                    forall|px: int, py: int| #[trigger]
                        inter.spec_contains(px, py) <==> (a.spec_contains(px, py)
                            && area.spec_contains(px, py)),
                    forall|i: int|
                        0 <= i < old_content.len() ==> if index_in(a, area, i) && (index_y(a, i)
                            < y || (index_y(a, i) == y && index_x(a, i) < x)) {
                            match symbol {
                                Some(s) => stamped(
                                    old_content[i],
                                    #[trigger] self.content@[i],
                                    s@,
                                    style,
                                ),
                                None => self.content@[i] == styled_cell(old_content[i], style),
                            }
                        } else {
                            self.content@[i] == old_content[i]
                        },
                decreases right - x,
            {
                assert(inter.spec_contains(x as int, y as int));
                proof {
                    lemma_cell_index(a, x as int, y as int);
                }
                let idx = self.index_of(x, y).unwrap();
                let mut c = self.content[idx].clone();
                match symbol {
                    Some(s) => {
                        c.symbol = s.clone();
                    },
                    None => {},
                }
                c.apply_style(style);
                self.content.set(idx, c);
                proof {
                    assert forall|i: int| 0 <= i < old_content.len() && i != idx implies (
                    index_x(a, i) != x || index_y(a, i) != y) by {
                        if index_x(a, i) == x && index_y(a, i) == y {
                            vstd::arithmetic::div_mod::lemma_fundamental_div_mod(i, w);
                            let q = i / w;
                            assert(w * q == q * w) by (nonlinear_arith);
                        }
                    }
                }
                x = x + 1;
            }
            y = y + 1;
        }
        proof {
            assert forall|i: int| 0 <= i < old_content.len() && index_in(a, area, i) implies index_y(
                a,
                i,
            ) < y by {
                assert(inter.spec_contains(index_x(a, i), index_y(a, i)));
            }
        }
    }
}

impl Clone for Buffer {
    fn clone(&self) -> (r: Self)
        ensures
            r.spec_area() == self.spec_area(),
            r.cells() == self.cells(),
            r.links() == self.links(),
    {
        let content = self.content.clone();
        proof {
            assert forall|i: int| 0 <= i < content@.len() implies content@[i] == self.content@[i] by {
                assert(cloned::<Cell>(self.content@[i], content@[i]));
            }
            assert(content@ =~= self.content@);
        }
        Buffer { area: self.area, content, links: self.links.clone() }
    }
}

impl Default for Buffer {
    fn default() -> (r: Buffer)
        ensures
            r.is_blank(Rect { x: 0, y: 0, width: 0, height: 0 }),
    {
        Buffer::empty(Rect::ZERO())
    }
}


/// The cells after writing `changes`, in order, onto `cells`, the grid of
/// `area`; changes at positions outside the area are skipped.
pub open spec fn patched(cells: Seq<Cell>, area: Rect, changes: Seq<(u16, u16, Cell)>) -> Seq<Cell>
    decreases changes.len(),
{
    if changes.len() == 0 {
        cells
    } else {
        let prev = patched(cells, area, changes.drop_last());
        let (x, y, c) = changes.last();
        match cell_index(area, x as int, y as int) {
            Some(i) => prev.update(i, c),
            None => prev,
        }
    }
}

/// An area whose every cell has a column and a row within the `u16` range.
pub open spec fn addressable(area: Rect) -> bool {
    area.x + area.width <= 65535 && area.y + area.height <= 65535
}

/// The position of grid index `i` maps back to `i`.
proof fn lemma_index_roundtrip(area: Rect, i: int)
    requires
        addressable(area),
        0 <= i < area.width * area.height,
    ensures
        0 <= index_x(area, i) <= 65535,
        0 <= index_y(area, i) <= 65535,
        cell_index(area, index_x(area, i), index_y(area, i)) == Some(i),
{
    let w = area.width as int;
    let h = area.height as int;
    assert(w > 0) by (nonlinear_arith)
        requires
            0 <= i < w * h,
            h >= 0,
    ;
    assert(0 <= i % w < w) by (nonlinear_arith)
        requires
            w > 0,
    ;
    assert(0 <= i / w < h) by (nonlinear_arith)
        requires
            w > 0,
            0 <= i < w * h,
    ;
    assert((i / w) * w + i % w == i) by (nonlinear_arith)
        requires
            w > 0,
    ;
}

/// What the first `n` indices contribute to a same-area diff: the patched
/// grid shows `b` up to `n` and is still `a` from there on, and every
/// change reported lies below `n` at a position that differs.
proof fn lemma_diff_flat_redraws(a: &Buffer, b: &Buffer, check: bool, n: int)
    requires
        a.wf(),
        b.wf(),
        a.spec_area() == b.spec_area(),
        addressable(a.spec_area()),
        0 <= n <= a.cells().len(),
    ensures
        ({
            let p = patched(a.cells(), a.spec_area(), diff_flat(a, b, check, n));
            &&& p.len() == a.cells().len()
            &&& forall|i: int| 0 <= i < n ==> same_cell(#[trigger] p[i], b.cells()[i])
            &&& forall|i: int| n <= i < a.cells().len() ==> #[trigger] p[i] == a.cells()[i]
        }),
        forall|k: int|
            0 <= k < diff_flat(a, b, check, n).len() ==> (#[trigger] cell_index(
                a.spec_area(),
                diff_flat(a, b, check, n)[k].0 as int,
                diff_flat(a, b, check, n)[k].1 as int,
            ) matches Some(i) && 0 <= i < n && (!same_cell(a.cells()[i], b.cells()[i]) || a.links().get(
                i as u32,
            ) != b.links().get(i as u32))),
    decreases n,
{
    if n > 0 {
        lemma_diff_flat_redraws(a, b, check, n - 1);
        let area = a.spec_area();
        let i = n - 1;
        let prev = diff_flat(a, b, check, n - 1);
        let cur = diff_flat(a, b, check, n);
        lemma_index_roundtrip(area, i);
        if !same_cell(a.cells()[i], b.cells()[i]) || (check && a.links().get(i as u32) != b.links().get(i as u32)) {
            let e = (index_x(area, i) as u16, index_y(area, i) as u16, b.cells()[i]);
            assert(cur == prev + seq![e]);
            assert(cur.drop_last() =~= prev);
            assert(cur.last() == e);
            assert forall|k: int| 0 <= k < cur.len() implies (#[trigger] cell_index(area, cur[k].0 as int, cur[k].1 as int) matches Some(j)
                && 0 <= j < n && (!same_cell(a.cells()[j], b.cells()[j]) || a.links().get(j as u32) != b.links().get(j as u32))) by {
                if k < prev.len() {
                    assert(cur[k] == prev[k]);
                }
            }
        } else {
            assert(cur =~= prev);
        }
    }
}

/// Differential rendering is exact: writing the changes `diff` reports
/// onto the old grid gives a grid that shows, cell for cell, what the new
/// one shows (for an area whose cells all have `u16` positions); and every
/// change reported is at a position whose cell or hyperlink differs.
pub proof fn lemma_diff_redraws(a: &Buffer, b: &Buffer)
    requires
        a.wf(),
        b.wf(),
        a.spec_area() == b.spec_area(),
        addressable(a.spec_area()),
    ensures
        patched(a.cells(), a.spec_area(), diff_spec(a, b)).len() == b.cells().len(),
        forall|i: int|
            0 <= i < b.cells().len() ==> same_cell(
                #[trigger] patched(a.cells(), a.spec_area(), diff_spec(a, b))[i],
                b.cells()[i],
            ),
        forall|k: int|
            0 <= k < diff_spec(a, b).len() ==> (#[trigger] cell_index(
                a.spec_area(),
                diff_spec(a, b)[k].0 as int,
                diff_spec(a, b)[k].1 as int,
            ) matches Some(i) && (!same_cell(a.cells()[i], b.cells()[i]) || a.links().get(i as u32)
                != b.links().get(i as u32))),
{
    lemma_diff_flat_redraws(a, b, !a.links().is_empty() || !b.links().is_empty(), a.cells().len() as int);
}

/// A buffer compared with itself reports no change.
pub proof fn lemma_diff_self_empty(a: &Buffer)
    requires
        a.wf(),
    ensures
        diff_spec(a, a) == Seq::<(u16, u16, Cell)>::empty(),
{
    lemma_diff_flat_self(a, !a.links().is_empty(), a.cells().len() as int);
}

proof fn lemma_diff_flat_self(a: &Buffer, check: bool, n: int)
    requires
        a.wf(),
        0 <= n <= a.cells().len(),
    ensures
        diff_flat(a, a, check, n) == Seq::<(u16, u16, Cell)>::empty(),
    decreases n,
{
    if n > 0 {
        lemma_diff_flat_self(a, check, n - 1);
        assert(diff_flat(a, a, check, n) =~= Seq::<(u16, u16, Cell)>::empty());
    }
}

/// Writing a string changes only cells of the row it is written on.
pub proof fn lemma_set_string_stays_on_row(
    old: &Buffer,
    new: &Buffer,
    x: int,
    y: int,
    string: Seq<char>,
    style: Style,
    r: int,
)
    requires
        old.wf(),
        new.spec_area() == old.spec_area(),
        set_string_result(old, new, x, y, string, sat_sub(old.spec_area().spec_right(), x), style, r),
    ensures
        new.cells().len() == old.cells().len(),
        forall|i: int|
            0 <= i < old.cells().len() && index_y(old.spec_area(), i) != y ==> #[trigger] new.cells()[i]
                == old.cells()[i],
{
    let a = old.spec_area();
    match cell_index(a, x, y) {
        None => {},
        Some(start) => {
            lemma_cell_index(a, x, y);
            let w = a.width as int;
            let row = y - a.y;
            assert(start == row * w + (x - a.x));
            assert(row * w <= start) by (nonlinear_arith)
                requires
                    start == row * w + (x - a.x),
                    x >= a.x,
            ;
            assert forall|i: int| 0 <= i < old.cells().len() && index_y(a, i) != y implies #[trigger] new.cells()[i]
                == old.cells()[i] by {
                if start <= i < start + r {
                    assert(i / w == row) by (nonlinear_arith)
                        requires
                            row * w <= i,
                            i < (row + 1) * w,
                            w > 0,
                    ;
                }
            }
        },
    }
}

} // verus!
