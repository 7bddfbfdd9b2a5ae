//! Text reflow: word wrapping, character wrapping and line truncation.
//!
//! All three operate on `Line`s of `Span`s, preserving per-span styling: a
//! line is exploded into styled grapheme clusters, the clusters are laid out,
//! and each output line is reassembled by merging neighbours of one style
//! into a single span.
use vstd::prelude::*;
use vstd::seq_lib::lemma_flatten_concat;
use crate::base::chars::string_push_str;
use crate::base::style::{Style, patch_style};
use crate::base::text::{Line, Span};
use crate::base::unicode::{grapheme_clusters, graphemes, str_width, unicode_str_width};
use crate::base::chars::{trim, trimmed};

verus! {

/// A single styled grapheme (one visible character with its style).
#[derive(Debug, PartialEq, Eq)]
pub struct StyledGrapheme {
    pub grapheme: String,
    pub style: Style,
}

/// A styled grapheme as a value: its text and its style.
pub type Styled = (Seq<char>, Style);

impl StyledGrapheme {
    /// The grapheme as a value.
    pub open spec fn as_styled(self) -> Styled {
        (self.grapheme@, self.style)
    }

    /// The display width of the grapheme.
    pub fn width(&self) -> (r: usize)
        ensures
            r == unicode_str_width(self.grapheme@),
    {
        str_width(self.grapheme.as_str())
    }
}

impl Clone for StyledGrapheme {
    fn clone(&self) -> (r: Self)
        ensures
            r == *self,
    {
        StyledGrapheme { grapheme: self.grapheme.clone(), style: self.style }
    }
}

/// The display width of a styled grapheme.
pub open spec fn gw(g: Styled) -> int {
    unicode_str_width(g.0) as int
}

/// The styled graphemes of a sequence of spans: each span's clusters carry
/// the base style patched with the span's own.
pub open spec fn line_graphemes(spans: Seq<Span>, base: Style) -> Seq<Styled>
    decreases spans.len(),
{
    if spans.len() == 0 {
        Seq::empty()
    } else {
        let s = spans.last();
        line_graphemes(spans.drop_last(), base) + grapheme_clusters(s.content@).map_values(
            |g: Seq<char>| (g, patch_style(base, s.style)),
        )
    }
}

/// The state after merging the first `n` graphemes into runs: the finished
/// runs, the text of the open run, and its style.
pub open spec fn runs_upto(gs: Seq<Styled>, n: int) -> (Seq<Styled>, Seq<char>, Style)
    decreases n,
{
    if n <= 0 {
        (Seq::empty(), Seq::empty(), gs[0].1)
    } else {
        let (done, text, style) = runs_upto(gs, n - 1);
        let g = gs[n - 1];
        if g.1 == style {
            (done, text + g.0, style)
        } else {
            (
                if text.len() > 0 {
                    done.push((text, style))
                } else {
                    done
                },
                g.0,
                g.1,
            )
        }
    }
}

/// Graphemes merged into runs: neighbours of one style share a run, and a
/// run with no text is dropped.
pub open spec fn group_runs(gs: Seq<Styled>) -> Seq<Styled> {
    if gs.len() == 0 {
        Seq::empty()
    } else {
        let (done, text, style) = runs_upto(gs, gs.len() as int);
        if text.len() > 0 {
            done.push((text, style))
        } else {
            done
        }
    }
}

/// `line` holds exactly the runs `runs`, one span each, with no alignment.
pub open spec fn line_is(line: Line, runs: Seq<Styled>) -> bool {
    &&& line.alignment is None
    &&& line.spans@.len() == runs.len()
    &&& forall|i: int|
        0 <= i < runs.len() ==> (#[trigger] line.spans@[i]).content@ == runs[i].0
            && line.spans@[i].style == runs[i].1
}

/// `lines` hold exactly the grapheme groups `groups`, each merged into runs.
pub open spec fn lines_are(lines: Seq<Line>, groups: Seq<Seq<Styled>>) -> bool {
    &&& lines.len() == groups.len()
    &&& forall|i: int| 0 <= i < groups.len() ==> line_is(#[trigger] lines[i], group_runs(groups[i]))
}

/// The state of greedy chunking after the first `n` graphemes: the finished
/// chunks, the open chunk and its width. A grapheme that would take the open
/// chunk past `max` starts a new one, unless the open chunk is empty.
pub open spec fn chunks_upto(gs: Seq<Styled>, max: int, n: int) -> (Seq<Seq<Styled>>, Seq<Styled>, int)
    decreases n,
{
    if n <= 0 {
        (Seq::empty(), Seq::empty(), 0)
    } else {
        let (done, cur, w) = chunks_upto(gs, max, n - 1);
        let g = gs[n - 1];
        if w + gw(g) > max && cur.len() > 0 {
            (done.push(cur), seq![g], gw(g))
        } else {
            (done, cur.push(g), w + gw(g))
        }
    }
}

/// The graphemes cut greedily into chunks of at most `max` columns (a
/// grapheme wider than that gets a chunk of its own).
pub open spec fn char_chunks(gs: Seq<Styled>, max: int) -> Seq<Seq<Styled>> {
    let (done, cur, _) = chunks_upto(gs, max, gs.len() as int);
    if cur.len() > 0 {
        done.push(cur)
    } else {
        done
    }
}

/// The grapheme groups character wrapping makes of the first `n` lines: an
/// empty line stays one empty line, any other is cut into chunks.
pub open spec fn char_wrap_groups(lines: Seq<Line>, max: int, base: Style, n: int) -> Seq<Seq<Styled>>
    decreases n,
{
    if n <= 0 {
        Seq::empty()
    } else {
        let gs = line_graphemes(lines[n - 1].spans@, base);
        char_wrap_groups(lines, max, base, n - 1) + if gs.len() == 0 {
            seq![Seq::<Styled>::empty()]
        } else {
            char_chunks(gs, max)
        }
    }
}

/// The longest prefix of the graphemes whose widths add up to at most `max`.
pub open spec fn fitting_prefix(gs: Seq<Styled>, max: int, n: int, w: int) -> Seq<Styled>
    decreases gs.len() - n,
{
    if n >= gs.len() || w + gw(gs[n]) > max {
        gs.take(n)
    } else {
        fitting_prefix(gs, max, n + 1, w + gw(gs[n]))
    }
}

/// Explode a line into individual styled graphemes.
fn line_to_graphemes(line: &Line, base_style: Style) -> (r: Vec<StyledGrapheme>)
    ensures
        r@.map_values(|g: StyledGrapheme| g.as_styled()) == line_graphemes(line.spans@, base_style),
        forall|i: int| 0 <= i < r@.len() ==> (#[trigger] r@[i]).grapheme@.len() > 0,
{
    let mut out: Vec<StyledGrapheme> = Vec::new();
    let mut k: usize = 0;
    while k < line.spans.len()
        invariant
            k <= line.spans@.len(),
            out@.map_values(|g: StyledGrapheme| g.as_styled()) == line_graphemes(
                line.spans@.take(k as int),
                base_style,
            ),
            forall|i: int| 0 <= i < out@.len() ==> (#[trigger] out@[i]).grapheme@.len() > 0,
        decreases line.spans@.len() - k,
    {
        let span = &line.spans[k];
        let style = base_style.patch(span.style);
        let gs = graphemes(span.content.as_str());
        let ghost before = out@.map_values(|g: StyledGrapheme| g.as_styled());
        let ghost want = grapheme_clusters(span.content@).map_values(
            |g: Seq<char>| (g, patch_style(base_style, span.style)),
        );
        let mut j: usize = 0;
        while j < gs.len()
            invariant
                j <= gs@.len(),
                gs@.len() == grapheme_clusters(span.content@).len(),
                forall|t: int| 0 <= t < gs@.len() ==> #[trigger] gs@[t]@ == grapheme_clusters(span.content@)[t],
                forall|t: int| 0 <= t < gs@.len() ==> #[trigger] gs@[t]@.len() > 0,
                style == patch_style(base_style, span.style),
                want == grapheme_clusters(span.content@).map_values(
                    |g: Seq<char>| (g, patch_style(base_style, span.style)),
                ),
                out@.map_values(|g: StyledGrapheme| g.as_styled()) == before + want.take(j as int),
                forall|i: int| 0 <= i < out@.len() ==> (#[trigger] out@[i]).grapheme@.len() > 0,
            decreases gs@.len() - j,
        {
            let ghost prev = out@;
            out.push(StyledGrapheme { grapheme: gs[j].clone(), style });
            proof {
                assert(out@.map_values(|g: StyledGrapheme| g.as_styled()) =~= prev.map_values(
                    |g: StyledGrapheme| g.as_styled(),
                ).push((gs@[j as int]@, style)));
                assert(want.take(j + 1) =~= want.take(j as int).push(want[j as int]));
            }
            j = j + 1;
        }
        proof {
            assert(want.take(j as int) =~= want);
            assert(line.spans@.take(k + 1).drop_last() =~= line.spans@.take(k as int));
        }
        k = k + 1;
    }
    assert(line.spans@.take(k as int) =~= line.spans@);
    out
}

/// Reassemble styled graphemes into a line, merging adjacent graphemes that
/// share a style into a single span.
fn graphemes_to_line(graphemes: &[StyledGrapheme]) -> (r: Line)
    ensures
        line_is(r, group_runs(graphemes@.map_values(|g: StyledGrapheme| g.as_styled()))),
{
    let ghost gs = graphemes@.map_values(|g: StyledGrapheme| g.as_styled());
    if graphemes.len() == 0 {
        return Line::default();
    }
    let mut spans: Vec<Span> = Vec::new();
    let mut current_text = String::new();
    let mut current_style = graphemes[0].style;
    let mut i: usize = 0;
    while i < graphemes.len()
        invariant
            0 < graphemes@.len(),
            gs == graphemes@.map_values(|g: StyledGrapheme| g.as_styled()),
            i <= graphemes@.len(),
            runs_upto(gs, i as int).1 == current_text@,
            runs_upto(gs, i as int).2 == current_style,
            spans@.len() == runs_upto(gs, i as int).0.len(),
            forall|t: int|
                0 <= t < spans@.len() ==> (#[trigger] spans@[t]).content@ == runs_upto(gs, i as int).0[t].0
                    && spans@[t].style == runs_upto(gs, i as int).0[t].1,
        decreases graphemes@.len() - i,
    {
        let sg = &graphemes[i];
        if sg.style == current_style {
            string_push_str(&mut current_text, sg.grapheme.as_str());
        } else {
            if !current_text.as_str().is_empty() {
                let mut text = String::new();
                std::mem::swap(&mut text, &mut current_text);
                spans.push(Span::styled(text, current_style));
            } else {
                current_text = String::new();
            }
            current_style = sg.style;
            string_push_str(&mut current_text, sg.grapheme.as_str());
        }
        i = i + 1;
    }
    if !current_text.as_str().is_empty() {
        spans.push(Span::styled(current_text, current_style));
    }
    Line { spans, alignment: None }
}

/// The styled view of a sequence of graphemes.
pub open spec fn styled_of(gs: Seq<StyledGrapheme>) -> Seq<Styled> {
    gs.map_values(|g: StyledGrapheme| g.as_styled())
}

/// Cut graphemes greedily into lines of at most `max` columns, appending
/// them to `result`.
fn push_chunks(result: &mut Vec<Line>, gs: &[StyledGrapheme], max: usize)
    ensures
        final(result)@.len() == old(result)@.len() + char_chunks(styled_of(gs@), max as int).len(),
        final(result)@.take(old(result)@.len() as int) == old(result)@,
        forall|i: int|
            0 <= i < char_chunks(styled_of(gs@), max as int).len() ==> line_is(
                #[trigger] final(result)@[old(result)@.len() + i],
                group_runs(char_chunks(styled_of(gs@), max as int)[i]),
            ),
{
    let ghost sv = styled_of(gs@);
    let ghost start = result@.len();
    let ghost orig = result@;
    let mut current: Vec<StyledGrapheme> = Vec::new();
    let mut w: usize = 0;
    let mut i: usize = 0;
    while i < gs.len()
        invariant
            sv == styled_of(gs@),
            i <= gs@.len(),
            start == orig.len(),
            result@.take(start as int) == orig,
            chunks_upto(sv, max as int, i as int).1 == styled_of(current@),
            chunks_upto(sv, max as int, i as int).2 == w,
            result@.len() == start + chunks_upto(sv, max as int, i as int).0.len(),
            forall|t: int|
                0 <= t < chunks_upto(sv, max as int, i as int).0.len() ==> line_is(
                    #[trigger] result@[start + t],
                    group_runs(chunks_upto(sv, max as int, i as int).0[t]),
                ),
        decreases gs@.len() - i,
    {
        let sg = &gs[i];
        let g = sg.width();
        proof {
            assert(sv[i as int] == sg.as_styled());
        }
        let over = w > max || g > max - w;
        if over && current.len() > 0 {
            let line = graphemes_to_line(current.as_slice());
            let ghost prev = result@;
            result.push(line);
            proof {
                assert(result@.take(start as int) =~= prev.take(start as int));
            }
            current = Vec::new();
            w = 0;
        }
        let ghost before = current@;
        current.push(sg.clone());
        proof {
            assert(styled_of(current@) =~= styled_of(before).push(sg.as_styled()));
        }
        w = w + g;
        i = i + 1;
    }
    proof {
        assert(sv.len() == gs@.len());
    }
    if current.len() > 0 {
        let line = graphemes_to_line(current.as_slice());
        let ghost prev = result@;
        result.push(line);
        proof {
            assert(result@.take(start as int) =~= prev.take(start as int));
        }
    }
}

/// Character-wrap lines to fit within `max_width` columns.
///
/// Breaks at grapheme cluster boundaries without regard for word boundaries.
pub struct CharWrapper;

impl CharWrapper {
    /// Each line cut into chunks of at most `max_width` columns; an empty
    /// line stays an empty line. A zero width gives no lines.
    pub fn wrap(lines: &[Line], max_width: u16, base_style: Style) -> (r: Vec<Line>)
        ensures
            max_width == 0 ==> r@.len() == 0,
            max_width > 0 ==> lines_are(
                r@,
                char_wrap_groups(lines@, max_width as int, base_style, lines@.len() as int),
            ),
    {
        let max = max_width as usize;
        let mut result: Vec<Line> = Vec::new();
        if max == 0 {
            return result;
        }
        let mut k: usize = 0;
        while k < lines.len()
            invariant
                max == max_width,
                k <= lines@.len(),
                lines_are(result@, char_wrap_groups(lines@, max as int, base_style, k as int)),
            decreases lines@.len() - k,
        {
            let graphemes = line_to_graphemes(&lines[k], base_style);
            let ghost before = result@;
            let ghost groups = char_wrap_groups(lines@, max as int, base_style, k as int);
            let ghost gs = line_graphemes(lines@[k as int].spans@, base_style);
            let ghost extra = if gs.len() == 0 {
                seq![Seq::<Styled>::empty()]
            } else {
                char_chunks(gs, max as int)
            };
            proof {
                assert(styled_of(graphemes@) == gs);
            }
            if graphemes.len() == 0 {
                result.push(Line::default());
                proof {
                    assert(result@.take(before.len() as int) =~= before);
                }
            } else {
                push_chunks(&mut result, graphemes.as_slice(), max);
            }
            proof {
                let new_groups = char_wrap_groups(lines@, max as int, base_style, k + 1);
                assert(new_groups == groups + extra);
                assert(result@.len() == new_groups.len());
                assert forall|i: int| 0 <= i < new_groups.len() implies line_is(
                    #[trigger] result@[i],
                    group_runs(new_groups[i]),
                ) by {
                    if i < groups.len() {
                        assert(result@[i] == result@.take(before.len() as int)[i]);
                        assert(new_groups[i] == groups[i]);
                    } else {
                        assert(new_groups[i] == extra[i - groups.len()]);
                        if gs.len() == 0 {
                            assert(group_runs(Seq::<Styled>::empty()) =~= Seq::<Styled>::empty());
                        } else {
                            assert(result@[i] == result@[before.len() + (i - groups.len())]);
                        }
                    }
                }
            }
            k = k + 1;
        }
        result
    }
}

/// Truncate lines to fit within `max_width` columns.
///
/// Each input line is shortened to its longest prefix of at most
/// `max_width` columns. No new lines are created.
pub struct LineTruncator;

impl LineTruncator {
    pub fn truncate(lines: &[Line], max_width: u16, base_style: Style) -> (r: Vec<Line>)
        ensures
            r@.len() == lines@.len(),
            forall|i: int|
                0 <= i < lines@.len() ==> line_is(
                    #[trigger] r@[i],
                    group_runs(fitting_prefix(line_graphemes(lines@[i].spans@, base_style), max_width as int, 0, 0)),
                ),
    {
        let max = max_width as usize;
        let mut result: Vec<Line> = Vec::new();
        let mut k: usize = 0;
        while k < lines.len()
            invariant
                max == max_width,
                k <= lines@.len(),
                result@.len() == k,
                forall|i: int|
                    0 <= i < k ==> line_is(
                        #[trigger] result@[i],
                        group_runs(fitting_prefix(line_graphemes(lines@[i].spans@, base_style), max as int, 0, 0)),
                    ),
            decreases lines@.len() - k,
        {
            let graphemes = line_to_graphemes(&lines[k], base_style);
            let ghost gs = line_graphemes(lines@[k as int].spans@, base_style);
            let mut kept: Vec<StyledGrapheme> = Vec::new();
            let mut w: usize = 0;
            let mut i: usize = 0;
            while i < graphemes.len()
                invariant_except_break
                    fitting_prefix(gs, max as int, 0, 0) == fitting_prefix(gs, max as int, i as int, w as int),
                invariant
                    gs == styled_of(graphemes@),
                    i <= graphemes@.len(),
                    styled_of(kept@) == gs.take(i as int),
                    w <= max,
                ensures
                    fitting_prefix(gs, max as int, 0, 0) == styled_of(kept@),
                decreases graphemes@.len() - i,
            {
                let sg = &graphemes[i];
                let g = sg.width();
                proof {
                    assert(gs[i as int] == sg.as_styled());
                }
                if g > max - w {
                    break;
                }
                let ghost before = kept@;
                kept.push(sg.clone());
                proof {
                    assert(styled_of(kept@) =~= styled_of(before).push(sg.as_styled()));
                    assert(gs.take(i + 1) =~= gs.take(i as int).push(gs[i as int]));
                }
                w = w + g;
                i = i + 1;
            }
            result.push(graphemes_to_line(kept.as_slice()));
            k = k + 1;
        }
        result
    }
}

/// Whether a grapheme is whitespace: nothing is left of it once trimmed.
pub open spec fn is_space(g: Styled) -> bool {
    trimmed(g.0).len() == 0
}

/// The total width of a sequence of graphemes.
pub open spec fn total_width(gs: Seq<Styled>) -> int
    decreases gs.len(),
{
    if gs.len() == 0 {
        0
    } else {
        total_width(gs.drop_last()) + gw(gs.last())
    }
}

/// The state of word wrapping: finished lines, the open line and its width,
/// and the word being gathered and its width.
pub struct WrapState {
    pub out: Seq<Seq<Styled>>,
    pub cur: Seq<Styled>,
    pub cw: int,
    pub word: Seq<Styled>,
    pub ww: int,
}

/// A space after the word has been placed: it joins the open line if it
/// fits; otherwise it ends that line and is dropped.
pub open spec fn space_add(st: WrapState, g: Styled, max: int) -> WrapState {
    if st.cw + gw(g) <= max {
        WrapState { cur: st.cur.push(g), cw: st.cw + gw(g), ..st }
    } else {
        WrapState { out: st.out.push(st.cur), cur: Seq::empty(), cw: 0, ..st }
    }
}

/// One grapheme of word wrapping. A non-space joins the word. A space ends
/// the word: the word joins the open line if it fits; otherwise the open
/// line is finished, and the word either starts the next line or, when it
/// is wider than a whole line, is broken into chunks (and the space is
/// dropped). Then the space is placed.
pub open spec fn ww_step(st: WrapState, g: Styled, max: int) -> WrapState {
    if is_space(g) {
        if st.ww + st.cw <= max {
            space_add(
                WrapState { cur: st.cur + st.word, cw: st.cw + st.ww, word: Seq::empty(), ww: 0, ..st },
                g,
                max,
            )
        } else {
            let out1 = if st.cur.len() > 0 {
                st.out.push(st.cur)
            } else {
                st.out
            };
            let cw1 = if st.cur.len() > 0 {
                0
            } else {
                st.cw
            };
            if st.ww > max {
                WrapState {
                    out: out1 + char_chunks(st.word, max),
                    cur: Seq::empty(),
                    cw: cw1,
                    word: Seq::empty(),
                    ww: 0,
                }
            } else {
                space_add(
                    WrapState { out: out1, cur: st.word, cw: st.ww, word: Seq::empty(), ww: 0 },
                    g,
                    max,
                )
            }
        }
    } else {
        WrapState { word: st.word.push(g), ww: st.ww + gw(g), ..st }
    }
}

/// The word-wrapping state after the first `n` graphemes.
pub open spec fn ww_upto(gs: Seq<Styled>, max: int, n: int) -> WrapState
    decreases n,
{
    if n <= 0 {
        WrapState { out: Seq::empty(), cur: Seq::empty(), cw: 0, word: Seq::empty(), ww: 0 }
    } else {
        ww_step(ww_upto(gs, max, n - 1), gs[n - 1], max)
    }
}

/// Whether every grapheme is whitespace.
pub open spec fn all_space(gs: Seq<Styled>) -> bool {
    forall|i: int| 0 <= i < gs.len() ==> is_space(#[trigger] gs[i])
}

/// The lines word wrapping makes of one non-empty line: the last word is
/// placed like any other, the open line is finished, and a line of nothing
/// but whitespace still gives one (empty) line.
pub open spec fn ww_line(gs: Seq<Styled>, max: int) -> Seq<Seq<Styled>> {
    let st = ww_upto(gs, max, gs.len() as int);
    let (out, cur) = if st.word.len() > 0 {
        if st.ww + st.cw <= max {
            (st.out, st.cur + st.word)
        } else {
            let out1 = if st.cur.len() > 0 {
                st.out.push(st.cur)
            } else {
                st.out
            };
            if st.ww > max {
                (out1 + char_chunks(st.word, max), Seq::<Styled>::empty())
            } else {
                (out1, st.word)
            }
        }
    } else {
        (st.out, st.cur)
    };
    if cur.len() > 0 {
        out.push(cur)
    } else if all_space(gs) {
        out.push(Seq::empty())
    } else {
        out
    }
}

/// The grapheme groups word wrapping makes of the first `n` lines.
pub open spec fn word_wrap_groups(lines: Seq<Line>, max: int, base: Style, n: int) -> Seq<Seq<Styled>>
    decreases n,
{
    if n <= 0 {
        Seq::empty()
    } else {
        let gs = line_graphemes(lines[n - 1].spans@, base);
        word_wrap_groups(lines, max, base, n - 1) + if gs.len() == 0 {
            seq![Seq::<Styled>::empty()]
        } else {
            ww_line(gs, max)
        }
    }
}

/// Word-wrap lines to fit within `max_width` columns.
///
/// Breaks lines at whitespace boundaries. If a single word is wider than
/// `max_width`, it is broken at character boundaries as a fallback.
/// Trailing whitespace at line breaks is consumed (not carried to the next
/// line).
pub struct WordWrapper;

/// `result` holds `before` followed by the lines of `groups`.
pub open spec fn appended(result: Seq<Line>, before: Seq<Line>, groups: Seq<Seq<Styled>>) -> bool {
    &&& result.len() == before.len() + groups.len()
    &&& result.take(before.len() as int) == before
    &&& forall|t: int|
        0 <= t < groups.len() ==> line_is(#[trigger] result[before.len() + t], group_runs(groups[t]))
}

/// The total width of the graphemes, or `None` when it does not fit in a
/// `usize`.
fn checked_total_width(gs: &[StyledGrapheme]) -> (r: Option<usize>)
    ensures
        match r {
            Some(w) => w == total_width(styled_of(gs@)),
            None => total_width(styled_of(gs@)) > usize::MAX,
        },
{
    let mut total: usize = 0;
    let mut i: usize = 0;
    while i < gs.len()
        invariant
            i <= gs@.len(),
            total == total_width(styled_of(gs@).take(i as int)),
        decreases gs@.len() - i,
    {
        assert(styled_of(gs@).take(i + 1).drop_last() =~= styled_of(gs@).take(i as int));
        let w = str_width(gs[i].grapheme.as_str());
        if total > usize::MAX - w {
            proof {
                lemma_total_width_prefix(styled_of(gs@), i + 1);
            }
            return None;
        }
        total = total + w;
        i = i + 1;
    }
    assert(styled_of(gs@).take(gs@.len() as int) =~= styled_of(gs@));
    Some(total)
}

/// Whether every line's total width fits in a `usize`.
pub open spec fn widths_fit(lines: Seq<Line>, base_style: Style) -> bool {
    forall|i: int| 0 <= i < lines.len() ==> total_width(line_graphemes(#[trigger] lines[i].spans@, base_style)) <= usize::MAX
}

impl WordWrapper {
    pub fn wrap(lines: &[Line], max_width: u16, base_style: Style) -> (r: Vec<Line>)
        requires
            forall|i: int|
                0 <= i < lines@.len() ==> total_width(line_graphemes(#[trigger] lines@[i].spans@, base_style))
                    <= usize::MAX,
        ensures
            max_width == 0 ==> r@.len() == 0,
            max_width > 0 ==> lines_are(
                r@,
                word_wrap_groups(lines@, max_width as int, base_style, lines@.len() as int),
            ),
    {
        let max = max_width as usize;
        let mut result: Vec<Line> = Vec::new();
        if max == 0 {
            return result;
        }
        let mut k: usize = 0;
        while k < lines.len()
            invariant
                max == max_width,
                max > 0,
                k <= lines@.len(),
                forall|i: int|
                    0 <= i < lines@.len() ==> total_width(line_graphemes(#[trigger] lines@[i].spans@, base_style))
                        <= usize::MAX,
                lines_are(result@, word_wrap_groups(lines@, max as int, base_style, k as int)),
            decreases lines@.len() - k,
        {
            let graphemes = line_to_graphemes(&lines[k], base_style);
            let ghost before = result@;
            let ghost groups = word_wrap_groups(lines@, max as int, base_style, k as int);
            let ghost gs = line_graphemes(lines@[k as int].spans@, base_style);
            proof {
                assert(styled_of(graphemes@) == gs);
            }
            let ghost extra = if gs.len() == 0 {
                seq![Seq::<Styled>::empty()]
            } else {
                ww_line(gs, max as int)
            };
            if graphemes.len() == 0 {
                result.push(Line::default());
                proof {
                    assert(result@.take(before.len() as int) =~= before);
                    assert(group_runs(Seq::<Styled>::empty()) =~= Seq::<Styled>::empty());
                    assert(appended(result@, before, extra));
                }
            } else {
                Self::wrap_line(&mut result, graphemes.as_slice(), max);
            }
            proof {
                let new_groups = word_wrap_groups(lines@, max as int, base_style, k + 1);
                assert(new_groups == groups + extra);
                assert forall|i: int| 0 <= i < new_groups.len() implies line_is(
                    #[trigger] result@[i],
                    group_runs(new_groups[i]),
                ) by {
                    if i < groups.len() {
                        assert(result@[i] == result@.take(before.len() as int)[i]);
                        assert(new_groups[i] == groups[i]);
                    } else {
                        assert(new_groups[i] == extra[i - groups.len()]);
                        assert(result@[i] == result@[before.len() + (i - groups.len())]);
                    }
                }
            }
            k = k + 1;
        }
        result
    }

    /// Word-wrap the graphemes of one non-empty line, appending the lines.
    fn wrap_line(result: &mut Vec<Line>, graphemes: &[StyledGrapheme], max: usize)
        requires
            max > 0,
            graphemes@.len() > 0,
            total_width(styled_of(graphemes@)) <= usize::MAX,
        ensures
            appended(final(result)@, old(result)@, ww_line(styled_of(graphemes@), max as int)),
    {
        let ghost gs = styled_of(graphemes@);
        let ghost before = result@;
        let ghost m = max as int;
        let mut current_line: Vec<StyledGrapheme> = Vec::new();
        let mut current_width: usize = 0;
        let mut word: Vec<StyledGrapheme> = Vec::new();
        let mut word_width: usize = 0;
        let mut i: usize = 0;
        assert(result@.take(before.len() as int) =~= before);
        while i < graphemes.len()
            invariant
                gs == styled_of(graphemes@),
                m == max,
                max > 0,
                total_width(gs) <= usize::MAX,
                i <= gs.len(),
                appended(result@, before, ww_upto(gs, m, i as int).out),
                styled_of(current_line@) == ww_upto(gs, m, i as int).cur,
                current_width == ww_upto(gs, m, i as int).cw,
                styled_of(word@) == ww_upto(gs, m, i as int).word,
                word_width == ww_upto(gs, m, i as int).ww,
                current_width <= max,
                word_width <= total_width(gs.take(i as int)),
            decreases gs.len() - i,
        {
            let sg = &graphemes[i];
            let g = sg.width();
            let ghost st = ww_upto(gs, m, i as int);
            proof {
                assert(gs[i as int] == sg.as_styled());
                assert(gs.take(i + 1).drop_last() =~= gs.take(i as int));
                lemma_total_width_prefix(gs, i + 1);
            }
            let space = trim(sg.grapheme.as_str()).is_empty();
            if space {
                if word_width <= max - current_width {
                    Self::append(&mut current_line, &mut word);
                    current_width = current_width + word_width;
                    word_width = 0;
                } else {
                    if current_line.len() > 0 {
                        let line = graphemes_to_line(current_line.as_slice());
                        Self::push_line(result, line, Ghost(before), Ghost(st.out), Ghost(st.cur));
                        current_line = Vec::new();
                        current_width = 0;
                    }
                    if word_width > max {
                        let ghost mid = result@;
                        push_chunks(result, word.as_slice(), max);
                        proof {
                            lemma_appended_chunks(before, mid, result@, if st.cur.len() > 0 { st.out.push(st.cur) } else { st.out }, char_chunks(st.word, m));
                        }
                        word = Vec::new();
                        word_width = 0;
                        i = i + 1;
                        continue;
                    } else {
                        current_line = word;
                        word = Vec::new();
                        current_width = word_width;
                        word_width = 0;
                    }
                }
                // Add the space if it fits; a space at the end of a line is
                // consumed and the line finished.
                if g <= max - current_width {
                    let ghost prev = current_line@;
                    current_line.push(sg.clone());
                    proof {
                        assert(styled_of(current_line@) =~= styled_of(prev).push(sg.as_styled()));
                    }
                    current_width = current_width + g;
                } else {
                    let ghost out_now = if st.ww + st.cw <= m { st.out } else if st.cur.len() > 0 { st.out.push(st.cur) } else { st.out };
                    let line = graphemes_to_line(current_line.as_slice());
                    Self::push_line(result, line, Ghost(before), Ghost(out_now), Ghost(styled_of(current_line@)));
                    current_line = Vec::new();
                    current_width = 0;
                }
            } else {
                let ghost prev = word@;
                word.push(sg.clone());
                proof {
                    assert(styled_of(word@) =~= styled_of(prev).push(sg.as_styled()));
                }
                word_width = word_width + g;
            }
            i = i + 1;
        }
        proof {
            assert(gs.take(i as int) =~= gs);
        }
        let ghost st = ww_upto(gs, m, gs.len() as int);
        // Flush the last word, then the open line.
        if word.len() > 0 {
            if word_width <= max - current_width {
                Self::append(&mut current_line, &mut word);
            } else {
                if current_line.len() > 0 {
                    let line = graphemes_to_line(current_line.as_slice());
                    Self::push_line(result, line, Ghost(before), Ghost(st.out), Ghost(st.cur));
                    current_line = Vec::new();
                }
                if word_width > max {
                    let ghost mid = result@;
                    push_chunks(result, word.as_slice(), max);
                    proof {
                        lemma_appended_chunks(before, mid, result@, if st.cur.len() > 0 { st.out.push(st.cur) } else { st.out }, char_chunks(st.word, m));
                    }
                    word = Vec::new();
                } else {
                    current_line = word;
                    word = Vec::new();
                }
            }
        }
        let ghost out_now = if st.word.len() > 0 && st.ww + st.cw > m {
            let o = if st.cur.len() > 0 {
                st.out.push(st.cur)
            } else {
                st.out
            };
            let c = if st.ww > m {
                char_chunks(st.word, m)
            } else {
                Seq::empty()
            };
            o + c
        } else {
            st.out
        };
        proof {
            if st.word.len() > 0 && st.ww + st.cw > m && st.ww <= m {
                let o = if st.cur.len() > 0 { st.out.push(st.cur) } else { st.out };
                assert(o + Seq::<Seq<Styled>>::empty() =~= o);
            }
        }
        if current_line.len() > 0 {
            let line = graphemes_to_line(current_line.as_slice());
            Self::push_line(result, line, Ghost(before), Ghost(out_now), Ghost(styled_of(current_line@)));
        } else if result.len() == 0 || word.len() == 0 {
            if Self::all_blank(graphemes) {
                let ghost prev = result@;
                result.push(Line::default());
                proof {
                    assert(group_runs(Seq::<Styled>::empty()) =~= Seq::<Styled>::empty());
                    lemma_appended_push(before, prev, result@, out_now, Seq::empty());
                }
            }
        }
    }

    /// Move the word onto the end of the open line.
    fn append(line: &mut Vec<StyledGrapheme>, word: &mut Vec<StyledGrapheme>)
        ensures
            styled_of(final(line)@) == styled_of(old(line)@) + styled_of(old(word)@),
            final(word)@.len() == 0,
    {
        let ghost l0 = line@;
        let ghost w0 = word@;
        line.append(word);
        proof {
            assert(styled_of(line@) =~= styled_of(l0) + styled_of(w0));
        }
    }

    /// Finish the open line.
    fn push_line(
        result: &mut Vec<Line>,
        line: Line,
        Ghost(before): Ghost<Seq<Line>>,
        Ghost(out): Ghost<Seq<Seq<Styled>>>,
        Ghost(cur): Ghost<Seq<Styled>>,
    )
        requires
            appended(old(result)@, before, out),
            line_is(line, group_runs(cur)),
        ensures
            appended(final(result)@, before, out.push(cur)),
    {
        let ghost prev = result@;
        result.push(line);
        proof {
            lemma_appended_push(before, prev, result@, out, cur);
        }
    }

    /// Whether every grapheme is whitespace.
    fn all_blank(graphemes: &[StyledGrapheme]) -> (r: bool)
        ensures
            r == all_space(styled_of(graphemes@)),
    {
        let mut i: usize = 0;
        while i < graphemes.len()
            invariant
                i <= graphemes@.len(),
                forall|t: int| 0 <= t < i ==> is_space(#[trigger] styled_of(graphemes@)[t]),
            decreases graphemes@.len() - i,
        {
            if !trim(graphemes[i].grapheme.as_str()).is_empty() {
                assert(!is_space(styled_of(graphemes@)[i as int]));
                return false;
            }
            i = i + 1;
        }
        true
    }
}

impl WordWrapper {
    /// Word-wrap the lines as `wrap` does when every line's total width fits
    /// in a `usize`; `None` when some line's does not.
    pub fn try_wrap(lines: &[Line], max_width: u16, base_style: Style) -> (r: Option<Vec<Line>>)
        ensures
            r is Some <==> widths_fit(lines@, base_style),
            r matches Some(v) ==> (max_width == 0 ==> v@.len() == 0),
            r matches Some(v) ==> (max_width > 0 ==> lines_are(
                v@,
                word_wrap_groups(lines@, max_width as int, base_style, lines@.len() as int),
            )),
    {
        let mut k: usize = 0;
        while k < lines.len()
            invariant
                k <= lines@.len(),
                forall|i: int|
                    0 <= i < k ==> total_width(line_graphemes(#[trigger] lines@[i].spans@, base_style)) <= usize::MAX,
            decreases lines@.len() - k,
        {
            let gs = line_to_graphemes(&lines[k], base_style);
            if checked_total_width(gs.as_slice()).is_none() {
                return None;
            }
            k = k + 1;
        }
        Some(Self::wrap(lines, max_width, base_style))
    }
}

/// A prefix of a sequence of graphemes is no wider than the whole.
pub proof fn lemma_total_width_prefix(gs: Seq<Styled>, n: int)
    requires
        0 <= n <= gs.len(),
    ensures
        total_width(gs.take(n)) <= total_width(gs),
        total_width(gs.take(n)) >= 0,
    decreases gs.len(),
{
    if gs.len() > 0 {
        if n < gs.len() {
            lemma_total_width_prefix(gs.drop_last(), n);
            assert(gs.drop_last().take(n) =~= gs.take(n));
        } else {
            assert(gs.take(n) =~= gs);
            lemma_total_width_prefix(gs.drop_last(), n - 1);
            assert(gs.drop_last().take(n - 1) =~= gs.drop_last());
        }
    } else {
        assert(gs.take(n) =~= gs);
    }
}

/// Appending one more line.
pub proof fn lemma_appended_push(
    before: Seq<Line>,
    prev: Seq<Line>,
    result: Seq<Line>,
    out: Seq<Seq<Styled>>,
    cur: Seq<Styled>,
)
    requires
        appended(prev, before, out),
        result == prev.push(result.last()),
        result.len() > 0,
        line_is(result.last(), group_runs(cur)),
    ensures
        appended(result, before, out.push(cur)),
{
    assert(result.take(before.len() as int) =~= prev.take(before.len() as int));
    assert forall|t: int| 0 <= t < out.len() + 1 implies line_is(
        #[trigger] result[before.len() + t],
        group_runs(out.push(cur)[t]),
    ) by {
        if t < out.len() {
            assert(result[before.len() + t] == prev[before.len() + t]);
        }
    }
}

/// Appending the chunks of a broken word.
pub proof fn lemma_appended_chunks(
    before: Seq<Line>,
    mid: Seq<Line>,
    result: Seq<Line>,
    out: Seq<Seq<Styled>>,
    chunks: Seq<Seq<Styled>>,
)
    requires
        appended(mid, before, out),
        result.len() == mid.len() + chunks.len(),
        result.take(mid.len() as int) == mid,
        forall|i: int|
            0 <= i < chunks.len() ==> line_is(#[trigger] result[mid.len() + i], group_runs(chunks[i])),
    ensures
        appended(result, before, out + chunks),
{
    assert(result.take(before.len() as int) =~= mid.take(before.len() as int)) by {
        assert forall|i: int| 0 <= i < before.len() implies result[i] == mid[i] by {
            assert(result.take(mid.len() as int)[i] == result[i]);
        }
    }
    assert forall|t: int| 0 <= t < out.len() + chunks.len() implies line_is(
        #[trigger] result[before.len() + t],
        group_runs((out + chunks)[t]),
    ) by {
        if t < out.len() {
            assert(result.take(mid.len() as int)[before.len() + t] == result[before.len() + t]);
            assert(result[before.len() + t] == mid[before.len() + t]);
            assert((out + chunks)[t] == out[t]);
        } else {
            assert((out + chunks)[t] == chunks[t - out.len()]);
            assert(before.len() + t == mid.len() + (t - out.len()));
        }
    }
}

/// A chunk that fits in `max` columns, or a single grapheme too wide to.
pub open spec fn fits_or_single(c: Seq<Styled>, max: int) -> bool {
    total_width(c) <= max || c.len() == 1
}

proof fn lemma_chunks_upto_fit(gs: Seq<Styled>, max: int, n: int)
    requires
        0 <= n <= gs.len(),
    ensures
        ({
            let (done, cur, w) = chunks_upto(gs, max, n);
            &&& w == total_width(cur)
            &&& cur.len() > 0 ==> fits_or_single(cur, max)
            &&& forall|k: int| 0 <= k < done.len() ==> fits_or_single(#[trigger] done[k], max)
        }),
    decreases n,
{
    if n > 0 {
        lemma_chunks_upto_fit(gs, max, n - 1);
        let (done, cur, w) = chunks_upto(gs, max, n - 1);
        let g = gs[n - 1];
        if w + gw(g) > max && cur.len() > 0 {
            assert(seq![g].drop_last() =~= Seq::<Styled>::empty());
            assert(chunks_upto(gs, max, n) == (done.push(cur), seq![g], gw(g)));
            assert(total_width(Seq::<Styled>::empty()) == 0);
            assert(seq![g].last() == g);
            assert(total_width(seq![g]) == gw(g));
            let done2 = done.push(cur);
            assert forall|k: int| 0 <= k < done2.len() implies fits_or_single(#[trigger] done2[k], max) by {
                if k < done.len() {
                    assert(done2[k] == done[k]);
                }
            }
        } else {
            assert(cur.push(g).drop_last() =~= cur);
            assert(chunks_upto(gs, max, n) == (done, cur.push(g), w + gw(g)));
            assert(total_width(cur.push(g)) == w + gw(g));
        }
    }
}

/// Character wrapping never makes a line wider than `max` columns, unless
/// the line is a single grapheme that is wider on its own.
pub proof fn lemma_char_chunks_fit(gs: Seq<Styled>, max: int)
    ensures
        forall|k: int|
            0 <= k < char_chunks(gs, max).len() ==> fits_or_single(#[trigger] char_chunks(gs, max)[k], max),
{
    lemma_chunks_upto_fit(gs, max, gs.len() as int);
    let (done, cur, _) = chunks_upto(gs, max, gs.len() as int);
    if cur.len() > 0 {
        let all = done.push(cur);
        assert forall|k: int| 0 <= k < all.len() implies fits_or_single(#[trigger] all[k], max) by {
            if k < done.len() {
                assert(all[k] == done[k]);
            }
        }
    }
}

proof fn lemma_fitting_prefix_fits(gs: Seq<Styled>, max: int, n: int, w: int)
    requires
        0 <= n <= gs.len(),
        w == total_width(gs.take(n)),
        w <= max,
    ensures
        total_width(fitting_prefix(gs, max, n, w)) <= max,
    decreases gs.len() - n,
{
    if n < gs.len() && w + gw(gs[n]) <= max {
        assert(gs.take(n + 1).drop_last() =~= gs.take(n));
        lemma_fitting_prefix_fits(gs, max, n + 1, w + gw(gs[n]));
    }
}

/// Truncation keeps a line within `max` columns.
pub proof fn lemma_truncation_fits(gs: Seq<Styled>, max: int)
    requires
        max >= 0,
    ensures
        total_width(fitting_prefix(gs, max, 0, 0)) <= max,
{
    assert(gs.take(0) =~= Seq::<Styled>::empty());
    lemma_fitting_prefix_fits(gs, max, 0, 0);
}

proof fn lemma_total_width_concat(a: Seq<Styled>, b: Seq<Styled>)
    ensures
        total_width(a + b) == total_width(a) + total_width(b),
    decreases b.len(),
{
    if b.len() == 0 {
        assert(a + b =~= a);
    } else {
        lemma_total_width_concat(a, b.drop_last());
        assert((a + b).drop_last() =~= a + b.drop_last());
        assert((a + b).last() == b.last());
    }
}

proof fn lemma_total_width_push(a: Seq<Styled>, g: Styled)
    ensures
        total_width(a.push(g)) == total_width(a) + gw(g),
{
    assert(a.push(g).drop_last() =~= a);
}

/// Every line in `out` fits in `max` columns or is a single grapheme.
pub open spec fn all_fit(out: Seq<Seq<Styled>>, max: int) -> bool {
    forall|k: int| 0 <= k < out.len() ==> fits_or_single(#[trigger] out[k], max)
}

/// What word wrapping keeps true: the widths it tracks are those of the
/// open line and the word, the open line fits, and so does every line
/// finished so far.
pub open spec fn wrap_inv(st: WrapState, max: int) -> bool {
    &&& st.cw == total_width(st.cur)
    &&& st.ww == total_width(st.word)
    &&& st.cw <= max
    &&& all_fit(st.out, max)
}

proof fn lemma_all_fit_push(out: Seq<Seq<Styled>>, c: Seq<Styled>, max: int)
    requires
        all_fit(out, max),
        fits_or_single(c, max),
    ensures
        all_fit(out.push(c), max),
{
    assert forall|k: int| 0 <= k < out.push(c).len() implies fits_or_single(#[trigger] out.push(c)[k], max) by {
        if k < out.len() {
            assert(out.push(c)[k] == out[k]);
        }
    }
}

proof fn lemma_all_fit_concat(a: Seq<Seq<Styled>>, b: Seq<Seq<Styled>>, max: int)
    requires
        all_fit(a, max),
        all_fit(b, max),
    ensures
        all_fit(a + b, max),
{
    assert forall|k: int| 0 <= k < (a + b).len() implies fits_or_single(#[trigger] (a + b)[k], max) by {
        if k < a.len() {
            assert((a + b)[k] == a[k]);
        } else {
            assert((a + b)[k] == b[k - a.len()]);
        }
    }
}

proof fn lemma_space_add_inv(st: WrapState, g: Styled, max: int)
    requires
        wrap_inv(st, max),
        max >= 0,
    ensures
        wrap_inv(space_add(st, g, max), max),
{
    lemma_total_width_push(st.cur, g);
    if st.cw + gw(g) > max {
        lemma_all_fit_push(st.out, st.cur, max);
        assert(total_width(Seq::<Styled>::empty()) == 0);
    }
}

proof fn lemma_ww_step_inv(st: WrapState, g: Styled, max: int)
    requires
        wrap_inv(st, max),
        max >= 0,
    ensures
        wrap_inv(ww_step(st, g, max), max),
{
    assert(total_width(Seq::<Styled>::empty()) == 0);
    if is_space(g) {
        if st.ww + st.cw <= max {
            lemma_total_width_concat(st.cur, st.word);
            lemma_space_add_inv(
                WrapState { cur: st.cur + st.word, cw: st.cw + st.ww, word: Seq::empty(), ww: 0, ..st },
                g,
                max,
            );
        } else {
            let out1 = if st.cur.len() > 0 { st.out.push(st.cur) } else { st.out };
            if st.cur.len() > 0 {
                lemma_all_fit_push(st.out, st.cur, max);
            } else {
                assert(st.cur =~= Seq::<Styled>::empty());
            }
            if st.ww > max {
                lemma_char_chunks_fit(st.word, max);
                lemma_all_fit_concat(out1, char_chunks(st.word, max), max);
            } else {
                lemma_space_add_inv(
                    WrapState { out: out1, cur: st.word, cw: st.ww, word: Seq::empty(), ww: 0 },
                    g,
                    max,
                );
            }
        }
    } else {
        lemma_total_width_push(st.word, g);
    }
}

proof fn lemma_ww_upto_inv(gs: Seq<Styled>, max: int, n: int)
    requires
        0 <= n <= gs.len(),
        max >= 0,
    ensures
        wrap_inv(ww_upto(gs, max, n), max),
    decreases n,
{
    if n == 0 {
        assert(total_width(Seq::<Styled>::empty()) == 0);
    } else {
        lemma_ww_upto_inv(gs, max, n - 1);
        lemma_ww_step_inv(ww_upto(gs, max, n - 1), gs[n - 1], max);
    }
}

/// Word wrapping one line never makes a line wider than `max` columns,
/// unless the line is a single grapheme that is wider on its own.
pub proof fn lemma_word_wrap_fits(gs: Seq<Styled>, max: int)
    requires
        max >= 0,
    ensures
        all_fit(ww_line(gs, max), max),
{
    lemma_ww_upto_inv(gs, max, gs.len() as int);
    let st = ww_upto(gs, max, gs.len() as int);
    assert(total_width(Seq::<Styled>::empty()) == 0);
    if st.word.len() > 0 {
        if st.ww + st.cw <= max {
            lemma_total_width_concat(st.cur, st.word);
            lemma_all_fit_push(st.out, st.cur + st.word, max);
        } else {
            let out1 = if st.cur.len() > 0 { st.out.push(st.cur) } else { st.out };
            if st.cur.len() > 0 {
                lemma_all_fit_push(st.out, st.cur, max);
            }
            if st.ww > max {
                lemma_char_chunks_fit(st.word, max);
                lemma_all_fit_concat(out1, char_chunks(st.word, max), max);
                lemma_all_fit_push(out1 + char_chunks(st.word, max), Seq::empty(), max);
            } else {
                lemma_all_fit_push(out1, st.word, max);
            }
        }
    } else {
        lemma_all_fit_push(st.out, st.cur, max);
        lemma_all_fit_push(st.out, Seq::empty(), max);
    }
}

/// The graphemes that are not whitespace, in order.
pub open spec fn words_of(gs: Seq<Styled>) -> Seq<Styled>
    decreases gs.len(),
{
    if gs.len() == 0 {
        Seq::empty()
    } else if is_space(gs.last()) {
        words_of(gs.drop_last())
    } else {
        words_of(gs.drop_last()).push(gs.last())
    }
}

proof fn lemma_words_concat(a: Seq<Styled>, b: Seq<Styled>)
    ensures
        words_of(a + b) == words_of(a) + words_of(b),
    decreases b.len(),
{
    if b.len() == 0 {
        assert(a + b =~= a);
        assert(words_of(a) + words_of(b) =~= words_of(a));
    } else {
        assert((a + b).drop_last() =~= a + b.drop_last());
        assert((a + b).last() == b.last());
        lemma_words_concat(a, b.drop_last());
        if !is_space(b.last()) {
            assert(words_of(a) + words_of(b.drop_last()).push(b.last()) =~= (words_of(a) + words_of(b.drop_last())).push(
                b.last(),
            ));
        }
    }
}

proof fn lemma_chunks_upto_text(gs: Seq<Styled>, max: int, n: int)
    requires
        0 <= n <= gs.len(),
    ensures
        chunks_upto(gs, max, n).0.flatten() + chunks_upto(gs, max, n).1 == gs.take(n),
    decreases n,
{
    broadcast use Seq::lemma_flatten_push;
    if n == 0 {
        assert(Seq::<Seq<Styled>>::empty().flatten() =~= Seq::<Styled>::empty());
        assert(gs.take(0) =~= Seq::<Styled>::empty());
        assert(Seq::<Styled>::empty() + Seq::<Styled>::empty() =~= Seq::<Styled>::empty());
    } else {
        lemma_chunks_upto_text(gs, max, n - 1);
        let (done, cur, w) = chunks_upto(gs, max, n - 1);
        let g = gs[n - 1];
        assert(gs.take(n) =~= gs.take(n - 1).push(g));
        if w + gw(g) > max && cur.len() > 0 {
            assert(done.push(cur).flatten() =~= done.flatten() + cur);
            assert(done.push(cur).flatten() + seq![g] =~= (done.flatten() + cur).push(g));
        } else {
            assert(done.flatten() + cur.push(g) =~= (done.flatten() + cur).push(g));
        }
    }
}

/// Character wrapping keeps the text: the chunks, joined, are the
/// graphemes of the line, in order.
pub proof fn lemma_char_chunks_keep_text(gs: Seq<Styled>, max: int)
    ensures
        char_chunks(gs, max).flatten() == gs,
{
    broadcast use Seq::lemma_flatten_push;
    lemma_chunks_upto_text(gs, max, gs.len() as int);
    assert(gs.take(gs.len() as int) =~= gs);
    let (done, cur, _) = chunks_upto(gs, max, gs.len() as int);
    if cur.len() > 0 {
        assert(done.push(cur).flatten() =~= done.flatten() + cur);
    } else {
        assert(done.flatten() + cur =~= done.flatten());
    }
}

/// Everything a word-wrapping state holds, in order: the finished lines,
/// the open line and the word being gathered.
pub open spec fn state_text(st: WrapState) -> Seq<Styled> {
    st.out.flatten() + st.cur + st.word
}

proof fn lemma_space_add_text(st: WrapState, g: Styled, max: int)
    requires
        st.word.len() == 0,
    ensures
        state_text(space_add(st, g, max)) == state_text(st).push(g) || state_text(space_add(st, g, max))
            == state_text(st),
{
    broadcast use Seq::lemma_flatten_push;
    if st.cw + gw(g) <= max {
        assert(state_text(space_add(st, g, max)) =~= state_text(st).push(g));
    } else {
        assert(state_text(space_add(st, g, max)) =~= state_text(st));
    }
}

proof fn lemma_ww_step_text(st: WrapState, g: Styled, max: int)
    ensures
        !is_space(g) ==> state_text(ww_step(st, g, max)) == state_text(st).push(g),
        is_space(g) ==> (state_text(ww_step(st, g, max)) == state_text(st).push(g) || state_text(ww_step(st, g, max))
            == state_text(st)),
{
    broadcast use Seq::lemma_flatten_push;
    if is_space(g) {
        if st.ww + st.cw <= max {
            let mid = WrapState { cur: st.cur + st.word, cw: st.cw + st.ww, word: Seq::empty(), ww: 0, ..st };
            assert(state_text(mid) =~= state_text(st));
            lemma_space_add_text(mid, g, max);
        } else {
            let out1 = if st.cur.len() > 0 {
                st.out.push(st.cur)
            } else {
                st.out
            };
            assert(out1.flatten() =~= st.out.flatten() + st.cur);
            if st.ww > max {
                lemma_flatten_concat(out1, char_chunks(st.word, max));
                lemma_char_chunks_keep_text(st.word, max);
                assert(state_text(ww_step(st, g, max)) =~= state_text(st));
            } else {
                let mid = WrapState { out: out1, cur: st.word, cw: st.ww, word: Seq::empty(), ww: 0 };
                assert(state_text(mid) =~= state_text(st));
                lemma_space_add_text(mid, g, max);
            }
        }
    } else {
        assert(state_text(ww_step(st, g, max)) =~= state_text(st).push(g));
    }
}

proof fn lemma_ww_upto_words(gs: Seq<Styled>, max: int, n: int)
    requires
        0 <= n <= gs.len(),
    ensures
        words_of(state_text(ww_upto(gs, max, n))) == words_of(gs.take(n)),
    decreases n,
{
    if n == 0 {
        let st = ww_upto(gs, max, 0);
        assert(Seq::<Seq<Styled>>::empty().flatten() =~= Seq::<Styled>::empty());
        assert(state_text(st) =~= Seq::<Styled>::empty());
        assert(gs.take(0) =~= Seq::<Styled>::empty());
    } else {
        lemma_ww_upto_words(gs, max, n - 1);
        let st = ww_upto(gs, max, n - 1);
        let g = gs[n - 1];
        lemma_ww_step_text(st, g, max);
        assert(gs.take(n).drop_last() =~= gs.take(n - 1));
        assert(gs.take(n).last() == g);
        assert(state_text(st).push(g).drop_last() =~= state_text(st));
    }
}

/// Word wrapping loses and reorders no word: the lines it makes of a
/// non-empty line, joined, hold the same non-whitespace graphemes in the
/// same order (only whitespace at the breaks is dropped).
pub proof fn lemma_word_wrap_keeps_words(gs: Seq<Styled>, max: int)
    requires
        gs.len() > 0,
    ensures
        words_of(ww_line(gs, max).flatten()) == words_of(gs),
{
    broadcast use Seq::lemma_flatten_push;
    let n = gs.len() as int;
    lemma_ww_upto_words(gs, max, n);
    assert(gs.take(n) =~= gs);
    let st = ww_upto(gs, max, n);
    let t = state_text(st);
    if st.word.len() > 0 {
        if st.ww + st.cw <= max {
            assert(ww_line(gs, max).flatten() =~= t);
        } else {
            let out1 = if st.cur.len() > 0 {
                st.out.push(st.cur)
            } else {
                st.out
            };
            assert(out1.flatten() =~= st.out.flatten() + st.cur);
            if st.ww > max {
                lemma_flatten_concat(out1, char_chunks(st.word, max));
                lemma_char_chunks_keep_text(st.word, max);
                let o = out1 + char_chunks(st.word, max);
                assert(o.flatten() =~= t);
                assert(o.push(Seq::empty()).flatten() =~= o.flatten());
            } else {
                assert(ww_line(gs, max).flatten() =~= t);
            }
        }
    } else {
        assert(st.out.push(Seq::empty()).flatten() =~= st.out.flatten());
        assert(ww_line(gs, max).flatten() =~= t);
    }
}

/// Every chunk is non-empty and, but for the last, full: the first
/// grapheme of the next chunk would not have fit on it.
pub open spec fn chunks_full(cs: Seq<Seq<Styled>>, max: int) -> bool {
    &&& forall|k: int| 0 <= k < cs.len() ==> (#[trigger] cs[k]).len() > 0
    &&& forall|k: int| 0 <= k < cs.len() - 1 ==> total_width(#[trigger] cs[k]) + gw(cs[k + 1][0]) > max
}

proof fn lemma_chunks_upto_full(gs: Seq<Styled>, max: int, n: int)
    requires
        0 <= n <= gs.len(),
    ensures
        ({
            let (done, cur, w) = chunks_upto(gs, max, n);
            &&& chunks_full(done, max)
            &&& w == total_width(cur)
            &&& n > 0 ==> cur.len() > 0
            &&& cur.len() == 0 ==> done.len() == 0
            &&& done.len() > 0 && cur.len() > 0 ==> total_width(done.last()) + gw(cur[0]) > max
        }),
    decreases n,
{
    if n > 0 {
        lemma_chunks_upto_full(gs, max, n - 1);
        let (done, cur, w) = chunks_upto(gs, max, n - 1);
        let g = gs[n - 1];
        if w + gw(g) > max && cur.len() > 0 {
            let d2 = done.push(cur);
            assert(total_width(seq![g]) == gw(g)) by {
                assert(seq![g].drop_last() =~= Seq::<Styled>::empty());
                assert(total_width(Seq::<Styled>::empty()) == 0);
                assert(seq![g].last() == g);
            }
            assert forall|k: int| 0 <= k < d2.len() - 1 implies total_width(#[trigger] d2[k]) + gw(d2[k + 1][0]) > max by {
                if k < done.len() - 1 {
                    assert(d2[k] == done[k] && d2[k + 1] == done[k + 1]);
                } else {
                    assert(d2[k] == done.last() && d2[k + 1] == cur);
                }
            }
            assert forall|k: int| 0 <= k < d2.len() implies (#[trigger] d2[k]).len() > 0 by {
                if k < done.len() {
                    assert(d2[k] == done[k]);
                }
            }
        } else {
            assert(cur.push(g).drop_last() =~= cur);
            if cur.len() > 0 {
                assert(cur.push(g)[0] == cur[0]);
            }
        }
    }
}

/// Character wrapping fills its lines: every line is non-empty, and each
/// but the last is one the next grapheme would have taken past `max`
/// columns.
pub proof fn lemma_char_chunks_full(gs: Seq<Styled>, max: int)
    ensures
        chunks_full(char_chunks(gs, max), max),
{
    lemma_chunks_upto_full(gs, max, gs.len() as int);
    let (done, cur, _) = chunks_upto(gs, max, gs.len() as int);
    if cur.len() > 0 {
        let all = done.push(cur);
        assert forall|k: int| 0 <= k < all.len() - 1 implies total_width(#[trigger] all[k]) + gw(all[k + 1][0]) > max by {
            if k < done.len() - 1 {
                assert(all[k] == done[k] && all[k + 1] == done[k + 1]);
            } else {
                assert(all[k] == done.last() && all[k + 1] == cur);
            }
        }
        assert forall|k: int| 0 <= k < all.len() implies (#[trigger] all[k]).len() > 0 by {
            if k < done.len() {
                assert(all[k] == done[k]);
            }
        }
    }
}

proof fn lemma_ww_upto_fitting(gs: Seq<Styled>, max: int, n: int)
    requires
        0 <= n <= gs.len(),
        total_width(gs) <= max,
    ensures
        ({
            let st = ww_upto(gs, max, n);
            &&& st.out.len() == 0
            &&& st.cur + st.word == gs.take(n)
            &&& st.cw == total_width(st.cur)
            &&& st.ww == total_width(st.word)
        }),
    decreases n,
{
    if n == 0 {
        assert(gs.take(0) =~= Seq::<Styled>::empty());
        assert(Seq::<Styled>::empty() + Seq::<Styled>::empty() =~= Seq::<Styled>::empty());
    } else {
        lemma_ww_upto_fitting(gs, max, n - 1);
        let st = ww_upto(gs, max, n - 1);
        let g = gs[n - 1];
        assert(gs.take(n) =~= gs.take(n - 1).push(g));
        lemma_total_width_prefix(gs, n);
        lemma_total_width_push(gs.take(n - 1), g);
        lemma_total_width_concat(st.cur, st.word);
        if is_space(g) {
            lemma_total_width_push(st.cur + st.word, g);
            assert((st.cur + st.word).push(g) + Seq::<Styled>::empty() =~= gs.take(n));
        } else {
            lemma_total_width_push(st.word, g);
            assert(st.cur + st.word.push(g) =~= gs.take(n));
        }
    }
}

/// Word wrapping leaves a line that fits alone: a non-empty line no wider
/// than `max` columns comes out as exactly that one line.
pub proof fn lemma_word_wrap_keeps_fitting_line(gs: Seq<Styled>, max: int)
    requires
        gs.len() > 0,
        total_width(gs) <= max,
    ensures
        ww_line(gs, max) == seq![gs],
{
    let n = gs.len() as int;
    lemma_ww_upto_fitting(gs, max, n);
    assert(gs.take(n) =~= gs);
    let st = ww_upto(gs, max, n);
    lemma_total_width_concat(st.cur, st.word);
    if st.word.len() == 0 {
        assert(st.cur =~= gs);
    }
    assert(Seq::<Seq<Styled>>::empty().push(gs) =~= seq![gs]);
}

/// The widths word wrapping keeps track of are those of the open line and
/// of the word being gathered.
proof fn lemma_ww_widths(gs: Seq<Styled>, max: int, n: int)
    requires
        0 <= n <= gs.len(),
    ensures
        ww_upto(gs, max, n).cw == total_width(ww_upto(gs, max, n).cur),
        ww_upto(gs, max, n).ww == total_width(ww_upto(gs, max, n).word),
    decreases n,
{
    if n > 0 {
        lemma_ww_widths(gs, max, n - 1);
        let st = ww_upto(gs, max, n - 1);
        let g = gs[n - 1];
        lemma_total_width_concat(st.cur, st.word);
        lemma_total_width_push(st.cur + st.word, g);
        lemma_total_width_push(st.word, g);
        lemma_total_width_push(st.word, g);
        lemma_total_width_push(st.cur, g);
        assert(total_width(Seq::<Styled>::empty()) == 0);
    }
}

/// Word wrapping finishes a line only when it has to: when a grapheme
/// finishes one, the open line, the word being gathered and that grapheme
/// together would not fit in `max` columns.
pub proof fn lemma_word_wrap_breaks_only_when_full(gs: Seq<Styled>, max: int, n: int)
    requires
        0 <= n < gs.len(),
    ensures
        ({
            let st = ww_upto(gs, max, n);
            ww_upto(gs, max, n + 1).out.len() > st.out.len() ==> total_width(st.cur) + total_width(st.word) + gw(
                gs[n],
            ) > max
        }),
{
    lemma_ww_widths(gs, max, n);
    let st = ww_upto(gs, max, n);
    assert(ww_upto(gs, max, n + 1) == ww_step(st, gs[n], max));
    assert(gw(gs[n]) >= 0);
    assert(total_width(st.word) >= 0) by {
        lemma_total_width_prefix(st.word, 0);
        assert(st.word.take(0) =~= Seq::<Styled>::empty());
    }
}

/// When the open line and the last word fit together, word wrapping ends
/// the line with both on one last line.
pub proof fn lemma_word_wrap_last_word_joins(gs: Seq<Styled>, max: int)
    requires
        gs.len() > 0,
    ensures
        ({
            let st = ww_upto(gs, max, gs.len() as int);
            let last = st.cur + st.word;
            total_width(st.cur) + total_width(st.word) <= max && last.len() > 0 ==> ww_line(gs, max) == st.out.push(last)
        }),
{
    lemma_ww_widths(gs, max, gs.len() as int);
    let st = ww_upto(gs, max, gs.len() as int);
    if st.word.len() == 0 {
        assert(st.cur + st.word =~= st.cur);
    }
}

} // verus!
