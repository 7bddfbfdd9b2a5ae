//! Styled text: spans, lines and multi-line text.
use vstd::prelude::*;
use vstd::std_specs::convert::FromSpecImpl;
use crate::base::chars::{string_push, str_to_chars};
use crate::base::style::{Style, Stylize, patch_style, plain_style};
use crate::base::unicode::{str_width, unicode_str_width};

verus! {

/// A styled segment of text (a single style applied to a string).
#[derive(Debug, PartialEq, Eq)]
pub struct Span {
    pub content: String,
    pub style: Style,
}

/// Text alignment within a line.
#[derive(Debug, Clone, Copy, PartialEq, Eq, Hash, Default, Structural)]
pub enum Alignment {
    #[default]
    Left,
    Center,
    Right,
}

/// A single line of styled text, composed of multiple `Span`s.
#[derive(Debug, PartialEq, Eq)]
pub struct Line {
    pub spans: Vec<Span>,
    pub alignment: Option<Alignment>,
}

/// Multi-line styled text.
#[derive(Debug, PartialEq, Eq)]
pub struct Text {
    pub lines: Vec<Line>,
    pub style: Style,
    pub alignment: Option<Alignment>,
}

/// The display width of a sequence of spans: the sum of their widths.
pub open spec fn spans_width(spans: Seq<Span>) -> int
    decreases spans.len(),
{
    if spans.len() == 0 {
        0
    } else {
        spans_width(spans.drop_last()) + unicode_str_width(spans.last().content@)
    }
}

/// The width of the widest of the lines, or zero for no lines.
pub open spec fn lines_width(lines: Seq<Line>) -> int
    decreases lines.len(),
{
    if lines.len() == 0 {
        0
    } else {
        let w = spans_width(lines.last().spans@);
        let rest = lines_width(lines.drop_last());
        if w > rest {
            w
        } else {
            rest
        }
    }
}

/// The pieces of `s` between occurrences of `sep`: one more piece than there
/// are separators, empty pieces included.
pub open spec fn split_on(s: Seq<char>, sep: char) -> Seq<Seq<char>>
    decreases s.len(),
{
    if s.len() == 0 {
        seq![Seq::empty()]
    } else {
        let rest = split_on(s.drop_last(), sep);
        if s.last() == sep {
            rest.push(Seq::empty())
        } else {
            rest.update(rest.len() - 1, rest.last().push(s.last()))
        }
    }
}

/// A split always has at least one piece.
pub proof fn lemma_split_nonempty(s: Seq<char>, sep: char)
    ensures
        split_on(s, sep).len() >= 1,
    decreases s.len(),
{
    if s.len() > 0 {
        lemma_split_nonempty(s.drop_last(), sep);
    }
}

impl Span {
    /// A span with the plain style.
    pub fn raw(content: String) -> (r: Self)
        ensures
            r.content == content,
            r.style == plain_style(),
    {
        Span { content, style: Style::new() }
    }

    /// A span with the given style.
    pub fn styled(content: String, style: Style) -> (r: Self)
        ensures
            r.content == content,
            r.style == style,
    {
        Span { content, style }
    }

    /// The display width of the content.
    pub fn width(&self) -> (r: usize)
        ensures
            r == unicode_str_width(self.content@),
    {
        str_width(self.content.as_str())
    }
}

impl Clone for Span {
    fn clone(&self) -> (r: Self)
        ensures
            r == *self,
    {
        Span { content: self.content.clone(), style: self.style }
    }
}

impl Stylize for Span {
    open spec fn stylized(self, style: Style) -> Span {
        Span { content: self.content, style: patch_style(self.style, style) }
    }

    fn style(self, style: Style) -> (r: Span) {
        Span { content: self.content, style: self.style.patch(style) }
    }
}

impl From<String> for Span {
    fn from(s: String) -> (r: Span) {
        Span::raw(s)
    }
}

impl FromSpecImpl<String> for Span {
    open spec fn obeys_from_spec() -> bool {
        true
    }

    open spec fn from_spec(s: String) -> Span {
        Span { content: s, style: plain_style() }
    }
}

impl Line {
    /// A line of one span with the plain style.
    pub fn raw(content: String) -> (r: Self)
        ensures
            r.spans@.len() == 1,
            r.spans@[0].content@ == content@,
            r.spans@[0].style == plain_style(),
            r.alignment is None,
    {
        Line { spans: vec![Span::raw(content)], alignment: None }
    }

    /// A line of one span with the given style.
    pub fn styled(content: String, style: Style) -> (r: Self)
        ensures
            r.spans@.len() == 1,
            r.spans@[0].content@ == content@,
            r.spans@[0].style == style,
            r.alignment is None,
    {
        Line { spans: vec![Span::styled(content, style)], alignment: None }
    }

    /// The line with the given alignment.
    pub fn alignment(self, alignment: Alignment) -> (r: Self)
        ensures
            r.spans == self.spans,
            r.alignment == Some(alignment),
    {
        Line { spans: self.spans, alignment: Some(alignment) }
    }

    /// The line aligned to the left.
    pub fn left(self) -> (r: Self)
        ensures
            r.spans == self.spans,
            r.alignment == Some(Alignment::Left),
    {
        self.alignment(Alignment::Left)
    }

    /// The line centered.
    pub fn centered(self) -> (r: Self)
        ensures
            r.spans == self.spans,
            r.alignment == Some(Alignment::Center),
    {
        self.alignment(Alignment::Center)
    }

    /// The line aligned to the right.
    pub fn right(self) -> (r: Self)
        ensures
            r.spans == self.spans,
            r.alignment == Some(Alignment::Right),
    {
        self.alignment(Alignment::Right)
    }

    /// Total visible width of this line: the sum of its spans' widths.
    pub fn width(&self) -> (r: usize)
        requires
            spans_width(self.spans@) <= usize::MAX,
        ensures
            r == spans_width(self.spans@),
    {
        let mut total: usize = 0;
        let mut i: usize = 0;
        while i < self.spans.len()
            invariant
                i <= self.spans@.len(),
                spans_width(self.spans@) <= usize::MAX,
                total == spans_width(self.spans@.take(i as int)),
            decreases self.spans@.len() - i,
        {
            proof {
                assert(self.spans@.take(i + 1).drop_last() =~= self.spans@.take(i as int));
                lemma_spans_width_prefix(self.spans@, i + 1);
            }
            total = total + self.spans[i].width();
            i = i + 1;
        }
        assert(self.spans@.take(i as int) =~= self.spans@);
        total
    }
}

/// A prefix of a sequence of spans is no wider than the whole.
pub proof fn lemma_spans_width_prefix(spans: Seq<Span>, n: int)
    requires
        0 <= n <= spans.len(),
    ensures
        spans_width(spans.take(n)) <= spans_width(spans),
    decreases spans.len(),
{
    if n < spans.len() {
        lemma_spans_width_prefix(spans.drop_last(), n);
        assert(spans.drop_last().take(n) =~= spans.take(n));
    } else {
        assert(spans.take(n) =~= spans);
    }
}

impl Clone for Line {
    fn clone(&self) -> (r: Self)
        ensures
            r.spans@ == self.spans@,
            r.alignment == self.alignment,
    {
        let mut spans: Vec<Span> = Vec::new();
        let mut i: usize = 0;
        while i < self.spans.len()
            invariant
                i <= self.spans@.len(),
                spans@ == self.spans@.take(i as int),
            decreases self.spans@.len() - i,
        {
            spans.push(self.spans[i].clone());
            assert(self.spans@.take(i + 1) =~= self.spans@.take(i as int).push(self.spans@[i as int]));
            i = i + 1;
        }
        assert(self.spans@.take(i as int) =~= self.spans@);
        Line { spans, alignment: self.alignment }
    }
}

impl Default for Line {
    fn default() -> (r: Line)
        ensures
            r.spans@.len() == 0,
            r.alignment is None,
    {
        Line { spans: Vec::new(), alignment: None }
    }
}

/// The line with `style` patched into every span.
pub open spec fn line_stylized(line: Line, style: Style) -> Seq<Span> {
    line.spans@.map_values(|s: Span| s.stylized(style))
}

impl Line {
    /// Patch `style` into every span of the line.
    pub fn style_all(self, style: Style) -> (r: Line)
        ensures
            r.spans@ == line_stylized(self, style),
            r.alignment == self.alignment,
    {
        let mut spans: Vec<Span> = Vec::new();
        let mut i: usize = 0;
        while i < self.spans.len()
            invariant
                i <= self.spans@.len(),
                spans@ == self.spans@.take(i as int).map_values(|s: Span| s.stylized(style)),
            decreases self.spans@.len() - i,
        {
            let s = self.spans[i].clone();
            spans.push(s.style(style));
            assert(self.spans@.take(i + 1).map_values(|s: Span| s.stylized(style)) =~= self.spans@.take(
                i as int,
            ).map_values(|s: Span| s.stylized(style)).push(self.spans@[i as int].stylized(style)));
            i = i + 1;
        }
        assert(self.spans@.take(i as int) =~= self.spans@);
        Line { spans, alignment: self.alignment }
    }
}

impl From<String> for Line {
    fn from(s: String) -> (r: Line)
        ensures
            r.spans@.len() == 1,
            r.spans@[0].content@ == s@,
            r.spans@[0].style == plain_style(),
            r.alignment is None,
    {
        Line { spans: vec![Span::raw(s)], alignment: None }
    }
}

impl FromSpecImpl<String> for Line {
    open spec fn obeys_from_spec() -> bool {
        false
    }

    open spec fn from_spec(s: String) -> Line {
        arbitrary()
    }
}

impl From<Vec<Span>> for Line {
    fn from(spans: Vec<Span>) -> (r: Line) {
        Line { spans, alignment: None }
    }
}

impl FromSpecImpl<Vec<Span>> for Line {
    open spec fn obeys_from_spec() -> bool {
        true
    }

    open spec fn from_spec(spans: Vec<Span>) -> Line {
        Line { spans, alignment: None }
    }
}

impl From<Span> for Line {
    fn from(span: Span) -> (r: Line)
        ensures
            r.spans@ == seq![span],
            r.alignment is None,
    {
        Line { spans: vec![span], alignment: None }
    }
}

impl FromSpecImpl<Span> for Line {
    open spec fn obeys_from_spec() -> bool {
        false
    }

    open spec fn from_spec(span: Span) -> Line {
        arbitrary()
    }
}

impl Text {
    /// Text of one unstyled line per `\n`-separated piece of `content`.
    pub fn raw(content: String) -> (r: Self)
        ensures
            r.lines@.len() == split_on(content@, '\n').len(),
            forall|i: int|
                0 <= i < r.lines@.len() ==> {
                    &&& (#[trigger] r.lines@[i]).spans@.len() == 1
                    &&& r.lines@[i].spans@[0].content@ == split_on(content@, '\n')[i]
                    &&& r.lines@[i].spans@[0].style == plain_style()
                    &&& r.lines@[i].alignment is None
                },
            r.style == plain_style(),
            r.alignment is None,
    {
        Text { lines: split_lines(content.as_str(), Style::new()), style: Style::new(), alignment: None }
    }

    /// Text of one line per `\n`-separated piece of `content`, each and the
    /// whole text carrying `style`.
    pub fn styled(content: String, style: Style) -> (r: Self)
        ensures
            r.lines@.len() == split_on(content@, '\n').len(),
            forall|i: int|
                0 <= i < r.lines@.len() ==> {
                    &&& (#[trigger] r.lines@[i]).spans@.len() == 1
                    &&& r.lines@[i].spans@[0].content@ == split_on(content@, '\n')[i]
                    &&& r.lines@[i].spans@[0].style == style
                    &&& r.lines@[i].alignment is None
                },
            r.style == style,
            r.alignment is None,
    {
        Text { lines: split_lines(content.as_str(), style), style, alignment: None }
    }

    /// The text with the given alignment.
    pub fn alignment(self, alignment: Alignment) -> (r: Self)
        ensures
            r.lines == self.lines,
            r.style == self.style,
            r.alignment == Some(alignment),
    {
        Text { lines: self.lines, style: self.style, alignment: Some(alignment) }
    }

    /// Total number of lines.
    pub fn height(&self) -> (r: usize)
        ensures
            r == self.lines@.len(),
    {
        self.lines.len()
    }

    /// Width of the widest line.
    pub fn width(&self) -> (r: usize)
        requires
            forall|i: int| 0 <= i < self.lines@.len() ==> spans_width(#[trigger] self.lines@[i].spans@) <= usize::MAX,
        ensures
            r == lines_width(self.lines@),
    {
        let mut best: usize = 0;
        let mut i: usize = 0;
        while i < self.lines.len()
            invariant
                i <= self.lines@.len(),
                forall|t: int| 0 <= t < self.lines@.len() ==> spans_width(#[trigger] self.lines@[t].spans@) <= usize::MAX,
                best == lines_width(self.lines@.take(i as int)),
            decreases self.lines@.len() - i,
        {
            proof {
                assert(self.lines@.take(i + 1).drop_last() =~= self.lines@.take(i as int));
                assert(self.lines@.take(i + 1).last() == self.lines@[i as int]);
            }
            let w = self.lines[i].width();
            if w > best {
                best = w;
            }
            i = i + 1;
        }
        assert(self.lines@.take(i as int) =~= self.lines@);
        best
    }
}

/// One line of one span with `style` per `\n`-separated piece of `s`.
fn split_lines(s: &str, style: Style) -> (r: Vec<Line>)
    ensures
        r@.len() == split_on(s@, '\n').len(),
        forall|i: int|
            0 <= i < r@.len() ==> {
                &&& (#[trigger] r@[i]).spans@.len() == 1
                &&& r@[i].spans@[0].content@ == split_on(s@, '\n')[i]
                &&& r@[i].spans@[0].style == style
                &&& r@[i].alignment is None
            },
{
    let cs = str_to_chars(s);
    let mut lines: Vec<Line> = Vec::new();
    let mut current = String::new();
    let mut i: usize = 0;
    while i < cs.len()
        invariant
            cs@ == s@,
            i <= cs@.len(),
            lines@.len() + 1 == split_on(cs@.take(i as int), '\n').len(),
            current@ == split_on(cs@.take(i as int), '\n').last(),
            forall|t: int|
                0 <= t < lines@.len() ==> {
                    &&& (#[trigger] lines@[t]).spans@.len() == 1
                    &&& lines@[t].spans@[0].content@ == split_on(cs@.take(i as int), '\n')[t]
                    &&& lines@[t].spans@[0].style == style
                    &&& lines@[t].alignment is None
                },
        decreases cs@.len() - i,
    {
        proof {
            assert(cs@.take(i + 1).drop_last() =~= cs@.take(i as int));
            assert(cs@.take(i + 1).last() == cs@[i as int]);
            lemma_split_nonempty(cs@.take(i as int), '\n');
        }
        if cs[i] == '\n' {
            let mut done = String::new();
            std::mem::swap(&mut done, &mut current);
            lines.push(Line::styled(done, style));
        } else {
            string_push(&mut current, cs[i]);
        }
        i = i + 1;
    }
    assert(cs@.take(i as int) =~= cs@);
    proof {
        lemma_split_nonempty(cs@, '\n');
    }
    lines.push(Line::styled(current, style));
    lines
}

impl Stylize for Text {
    open spec fn stylized(self, style: Style) -> Text {
        Text { lines: self.lines, style: patch_style(self.style, style), alignment: self.alignment }
    }

    fn style(self, style: Style) -> (r: Text) {
        Text { lines: self.lines, style: self.style.patch(style), alignment: self.alignment }
    }
}

impl Default for Text {
    fn default() -> (r: Text)
        ensures
            r.lines@.len() == 0,
            r.style == plain_style(),
            r.alignment is None,
    {
        Text { lines: Vec::new(), style: Style::new(), alignment: None }
    }
}

impl From<Vec<Line>> for Text {
    fn from(lines: Vec<Line>) -> (r: Text) {
        Text { lines, style: Style::new(), alignment: None }
    }
}

impl FromSpecImpl<Vec<Line>> for Text {
    open spec fn obeys_from_spec() -> bool {
        true
    }

    open spec fn from_spec(lines: Vec<Line>) -> Text {
        Text { lines, style: plain_style(), alignment: None }
    }
}

impl From<Line> for Text {
    fn from(line: Line) -> (r: Text)
        ensures
            r.lines@ == seq![line],
            r.style == plain_style(),
            r.alignment is None,
    {
        Text { lines: vec![line], style: Style::new(), alignment: None }
    }
}

impl FromSpecImpl<Line> for Text {
    open spec fn obeys_from_spec() -> bool {
        false
    }

    open spec fn from_spec(line: Line) -> Text {
        arbitrary()
    }
}

impl From<String> for Text {
    fn from(s: String) -> (r: Text)
        ensures
            r.lines@.len() == split_on(s@, '\n').len(),
            forall|i: int|
                0 <= i < r.lines@.len() ==> {
                    &&& (#[trigger] r.lines@[i]).spans@.len() == 1
                    &&& r.lines@[i].spans@[0].content@ == split_on(s@, '\n')[i]
                    &&& r.lines@[i].spans@[0].style == plain_style()
                },
            r.style == plain_style(),
    {
        Text::raw(s)
    }
}

impl FromSpecImpl<String> for Text {
    open spec fn obeys_from_spec() -> bool {
        false
    }

    open spec fn from_spec(s: String) -> Text {
        arbitrary()
    }
}

} // verus!
