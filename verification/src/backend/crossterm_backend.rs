//! The crossterm back end: frames are encoded into escape sequences here and
//! written out in one call; cursor, screen and mode changes go through
//! crossterm's commands.
use vstd::prelude::*;
use super::ansi::{
    close_hyperlink, color_seq, csi, decimal, diff_modifiers, modifier_diff_seq, move_seq, move_to, open_hyperlink, osc8,
    printable_bytes, reset_attributes, set_color, set_underline_color, sgr, st, underline_color_seq,
};
use super::Backend;
use crate::base::cell::Cell;
use crate::base::rect::{Position, Size};
use crate::base::style::{Color, Modifier};
use vstd::utf8::encode_utf8;
use vstd::string::StringSliceAdditionalSpecFns;

verus! {

/// What the encoder last put on the terminal: the attributes in force, where
/// the next character would land, and the open hyperlink. `None` means
/// unknown (nothing written yet), or for the link, no link open.
pub struct Pen {
    pub fg: Option<Color>,
    pub bg: Option<Color>,
    pub underline: Option<Color>,
    pub modifier: Option<Modifier>,
    pub next: Option<(u16, u16)>,
    pub link: Option<Seq<char>>,
}

/// The pen at the start of a frame: nothing known, no link open.
pub open spec fn fresh_pen() -> Pen {
    Pen { fg: None, bg: None, underline: None, modifier: None, next: None, link: None }
}

/// A cell to draw: its position, the cell, and its hyperlink target.
pub type Stroke = (u16, u16, Cell, Option<Seq<char>>);

/// The bytes that open or close a hyperlink.
pub open spec fn link_seq(link: Option<Seq<char>>) -> Seq<u8> {
    match link {
        Some(url) => osc8() + printable_bytes(encode_utf8(url)) + st(),
        None => osc8() + st(),
    }
}

/// The bytes for one cell given the pen: a cursor move unless the cell is
/// where the last one ended, then each attribute that differs from what is
/// in force (an underline color only when it is not the default), the
/// hyperlink when it changes, and the symbol. A cell with an empty symbol
/// (the trailing half of a wide character) gives nothing.
pub open spec fn stroke_bytes(p: Pen, s: Stroke) -> Seq<u8> {
    let (x, y, cell, link) = s;
    if cell.symbol@.len() == 0 {
        Seq::empty()
    } else {
        (if p.next != Some((x, y)) { move_seq(x, y) } else { Seq::empty() })
            + attr_bytes(p, cell)
            + (if p.link != link { link_seq(link) } else { Seq::empty() })
            + encode_utf8(cell.symbol@)
    }
}

/// The pen after one cell.
pub open spec fn stroke_pen(p: Pen, s: Stroke) -> Pen {
    let (x, y, cell, link) = s;
    if cell.symbol@.len() == 0 {
        p
    } else {
        Pen {
            fg: Some(cell.fg),
            bg: Some(cell.bg),
            underline: if cell.underline_color != Color::Reset { Some(cell.underline_color) } else { p.underline },
            modifier: Some(cell.modifier),
            next: Some((crate::base::rect::sat_add(x as int, 1) as u16, y)),
            link: link,
        }
    }
}

/// The pen after a sequence of cells.
pub open spec fn pen_after(strokes: Seq<Stroke>) -> Pen
    decreases strokes.len(),
{
    if strokes.len() == 0 {
        fresh_pen()
    } else {
        stroke_pen(pen_after(strokes.drop_last()), strokes.last())
    }
}

/// The bytes for a sequence of cells.
pub open spec fn strokes_bytes(strokes: Seq<Stroke>) -> Seq<u8>
    decreases strokes.len(),
{
    if strokes.len() == 0 {
        Seq::empty()
    } else {
        strokes_bytes(strokes.drop_last()) + stroke_bytes(pen_after(strokes.drop_last()), strokes.last())
    }
}

/// A whole frame: the cells, then closing a link left open, then resetting
/// every attribute.
pub open spec fn frame_bytes(strokes: Seq<Stroke>) -> Seq<u8> {
    strokes_bytes(strokes) + (if pen_after(strokes).link is Some { osc8() + st() } else { Seq::empty() }) + sgr(0)
}

/// The cells to draw, as strokes.
pub open spec fn linked_strokes(content: Seq<(u16, u16, &Cell, Option<&str>)>) -> Seq<Stroke> {
    content.map_values(|e: (u16, u16, &Cell, Option<&str>)| (e.0, e.1, *e.2, link_view(e.3)))
}

/// The cells to draw, without hyperlinks, as strokes.
pub open spec fn plain_strokes(content: Seq<(u16, u16, &Cell)>) -> Seq<Stroke> {
    content.map_values(|e: (u16, u16, &Cell)| (e.0, e.1, *e.2, None::<Seq<char>>))
}

/// A frame drawn without hyperlinks never opens one: no link is ever held,
/// so the frame ends with the attribute reset alone.
pub proof fn lemma_plain_frame_has_no_link(content: Seq<(u16, u16, &Cell)>)
    ensures
        pen_after(plain_strokes(content)).link is None,
        frame_bytes(plain_strokes(content)) == strokes_bytes(plain_strokes(content)) + sgr(0),
{
    lemma_no_link_strokes(plain_strokes(content), plain_strokes(content).len() as int);
    assert(plain_strokes(content).take(plain_strokes(content).len() as int) =~= plain_strokes(content));
    assert(frame_bytes(plain_strokes(content)) =~= strokes_bytes(plain_strokes(content)) + sgr(0));
}

proof fn lemma_no_link_strokes(strokes: Seq<Stroke>, n: int)
    requires
        0 <= n <= strokes.len(),
        forall|k: int| 0 <= k < strokes.len() ==> (#[trigger] strokes[k]).3 is None,
    ensures
        pen_after(strokes.take(n)).link is None,
    decreases n,
{
    if n > 0 {
        lemma_no_link_strokes(strokes, n - 1);
        assert(strokes.take(n).drop_last() =~= strokes.take(n - 1));
        assert(strokes.take(n).last() == strokes[n - 1]);
    }
}

fn same_color(a: Option<Color>, b: Color) -> (r: bool)
    ensures
        r == (a == Some(b)),
{
    match a {
        Some(c) => c == b,
        None => false,
    }
}

fn same_link(a: Option<&str>, b: Option<&str>) -> (r: bool)
    ensures
        r == (link_view(a) == link_view(b)),
{
    match (a, b) {
        (Some(s), Some(t)) => crate::base::chars::str_eq(s, t),
        (None, None) => true,
        _ => false,
    }
}

fn push_str_bytes(out: &mut Vec<u8>, s: &str)
    ensures
        final(out)@ == old(out)@ + encode_utf8(s@),
{
    let bytes = s.as_bytes();
    let mut i: usize = 0;
    while i < bytes.len()
        invariant
            i <= bytes@.len(),
            bytes@ == s.spec_bytes(),
            out@ == old(out)@ + bytes@.take(i as int),
        decreases bytes@.len() - i,
    {
        out.push(bytes[i]);
        assert(bytes@.take(i + 1) =~= bytes@.take(i as int).push(bytes@[i as int]));
        i = i + 1;
    }
    assert(bytes@.take(bytes@.len() as int) =~= bytes@);
}

/// The encoder's record of what it last put on the terminal.
struct PenState<'a> {
    fg: Option<Color>,
    bg: Option<Color>,
    underline: Option<Color>,
    modifier: Option<Modifier>,
    next: Option<(u16, u16)>,
    link: Option<&'a str>,
}

/// A hyperlink target by its text.
pub open spec fn link_view(link: Option<&str>) -> Option<Seq<char>> {
    match link {
        Some(s) => Some(s@),
        None => None,
    }
}

spec fn pen_of(s: PenState) -> Pen {
    Pen { fg: s.fg, bg: s.bg, underline: s.underline, modifier: s.modifier, next: s.next, link: link_view(s.link) }
}

/// The attribute part of a cell's bytes: the modifiers and each color that
/// differ from those in force, the underline color only when it is not the
/// default.
pub open spec fn attr_bytes(p: Pen, cell: Cell) -> Seq<u8> {
    let previous = match p.modifier {
        Some(m) => m.0,
        None => 0u16,
    };
    (if p.modifier != Some(cell.modifier) { modifier_diff_seq(previous, cell.modifier.0) } else { Seq::empty() })
        + (if p.fg != Some(cell.fg) { color_seq(cell.fg, true) } else { Seq::empty() })
        + (if p.bg != Some(cell.bg) { color_seq(cell.bg, false) } else { Seq::empty() })
        + (if cell.underline_color != Color::Reset && p.underline != Some(cell.underline_color) {
            underline_color_seq(cell.underline_color)
        } else {
            Seq::empty()
        })
}

/// Write the attributes of `cell` that differ from those in force.
fn encode_attrs(out: &mut Vec<u8>, st: &mut PenState, cell: &Cell)
    ensures
        final(out)@ == old(out)@ + attr_bytes(pen_of(*old(st)), *cell),
        final(st).fg == Some(cell.fg),
        final(st).bg == Some(cell.bg),
        final(st).underline == if cell.underline_color != Color::Reset {
            Some(cell.underline_color)
        } else {
            old(st).underline
        },
        final(st).modifier == Some(cell.modifier),
        final(st).next == old(st).next,
        final(st).link == old(st).link,
{
    let ghost start = out@;
    let same_modifier = match st.modifier {
        Some(m) => m == cell.modifier,
        None => false,
    };
    if !same_modifier {
        let previous = match st.modifier {
            Some(m) => m,
            None => Modifier(0),
        };
        diff_modifiers(out, previous, cell.modifier);
        st.modifier = Some(cell.modifier);
    }
    let ghost m1 = out@;
    if !same_color(st.fg, cell.fg) {
        set_color(out, cell.fg, true);
        st.fg = Some(cell.fg);
    }
    let ghost m2 = out@;
    if !same_color(st.bg, cell.bg) {
        set_color(out, cell.bg, false);
        st.bg = Some(cell.bg);
    }
    let ghost m3 = out@;
    let reset = match cell.underline_color {
        Color::Reset => true,
        _ => false,
    };
    if !reset && !same_color(st.underline, cell.underline_color) {
        set_underline_color(out, cell.underline_color);
        st.underline = Some(cell.underline_color);
    }
    assert(out@ =~= start + attr_bytes(pen_of(*old(st)), *cell));
}

/// Write one cell: move the cursor unless it is already there, the changed
/// attributes, the hyperlink when it changes, and the symbol.
fn encode_stroke<'a>(out: &mut Vec<u8>, st: &mut PenState<'a>, x: u16, y: u16, cell: &Cell, link: Option<&'a str>)
    ensures
        final(out)@ == old(out)@ + stroke_bytes(pen_of(*old(st)), (x, y, *cell, link_view(link))),
        pen_of(*final(st)) == stroke_pen(pen_of(*old(st)), (x, y, *cell, link_view(link))),
{
    if cell.symbol.is_empty() {
        assert(final(out)@ =~= old(out)@ + stroke_bytes(pen_of(*old(st)), (x, y, *cell, link_view(link))));
        return;
    }
    let ghost start = out@;
    let at = match st.next {
        Some((nx, ny)) => nx == x && ny == y,
        None => false,
    };
    if !at {
        move_to(out, x, y);
    }
    let ghost m1 = out@;
    encode_attrs(out, st, cell);
    let ghost m2 = out@;
    if !same_link(st.link, link) {
        match link {
            Some(url) => open_hyperlink(out, url),
            None => close_hyperlink(out),
        }
        st.link = link;
    }
    let ghost m3 = out@;
    push_str_bytes(out, cell.symbol.as_str());
    st.next = Some((x.saturating_add(1), y));
    assert(m3 =~= m2 + if pen_of(*old(st)).link != link_view(link) { link_seq(link_view(link)) } else { Seq::empty() });
    assert(out@ =~= start + stroke_bytes(pen_of(*old(st)), (x, y, *cell, link_view(link))));
    assert(pen_of(*st) =~= stroke_pen(pen_of(*old(st)), (x, y, *cell, link_view(link))));
}

/// Append the escape sequences for a frame of cells to `out`: every
/// attribute is written only when it differs from the previous cell's.
fn encode_into(out: &mut Vec<u8>, content: &[(u16, u16, &Cell, Option<&str>)])
    ensures
        final(out)@ == old(out)@ + frame_bytes(linked_strokes(content@)),
{
    let ghost strokes = linked_strokes(content@);
    let mut st = PenState { fg: None, bg: None, underline: None, modifier: None, next: None, link: None };
    let mut i: usize = 0;
    while i < content.len()
        invariant
            i <= content@.len(),
            strokes == linked_strokes(content@),
            out@ == old(out)@ + strokes_bytes(strokes.take(i as int)),
            pen_of(st) == pen_after(strokes.take(i as int)),
        decreases content@.len() - i,
    {
        assert(strokes.take(i + 1).drop_last() =~= strokes.take(i as int));
        let (x, y, cell, link) = content[i];
        encode_stroke(out, &mut st, x, y, cell, link);
        assert(strokes[i as int] == (x, y, *cell, link_view(link)));
        i = i + 1;
    }
    assert(strokes.take(content@.len() as int) =~= strokes);
    if st.link.is_some() {
        close_hyperlink(out);
    }
    reset_attributes(out);
    assert(final(out)@ =~= old(out)@ + frame_bytes(strokes));
}

/// Crossterm-based terminal back end, writing to `W`.
pub struct CrosstermBackend<W> {
    writer: W,
    /// Scratch buffer for one frame of escape sequences, reused across
    /// frames.
    scratch: Vec<u8>,
}

impl<W> CrosstermBackend<W> {
    /// What the back end writes to.
    pub closed spec fn sink(&self) -> W {
        self.writer
    }

    /// A back end writing to `writer`.
    pub fn new(writer: W) -> (r: Self)
        ensures
            r.sink() == writer,
    {
        CrosstermBackend { writer, scratch: Vec::new() }
    }

    /// What the back end writes to.
    pub fn writer(&self) -> (r: &W)
        ensures
            *r == self.sink(),
    {
        &self.writer
    }

    /// What the back end writes to, for changing it.
    pub fn writer_mut(&mut self) -> (r: &mut W)
        ensures
            *r == old(self).sink(),
            final(self).sink() == *final(r),
    {
        &mut self.writer
    }
}


#[verifier::external_type_specification]
#[verifier::external_body]
pub struct ExStdout(std::io::Stdout);

/// `Write::write_all` on standard output. Nothing is stated of the outcome,
/// which depends on the device.
#[verifier::external_body]
fn stdout_write_all(out: &mut std::io::Stdout, bytes: &[u8]) -> std::io::Result<()> {
    std::io::Write::write_all(out, bytes)
}

/// `Write::flush` on standard output. Nothing is stated of the outcome.
#[verifier::external_body]
fn stdout_flush(out: &mut std::io::Stdout) -> std::io::Result<()> {
    std::io::Write::flush(out)
}

/// Where a back end's bytes go.
pub trait TerminalWriter: Sized {
    /// Whether writing `bytes` can take the writer from `old` to `new`,
    /// where `ok` tells whether the write reported success.
    spec fn wrote(old: Self, new: Self, bytes: Seq<u8>, ok: bool) -> bool;

    /// Whether flushing can take the writer from `old` to `new`, where `ok`
    /// tells whether the flush reported success.
    spec fn flushed(old: Self, new: Self, ok: bool) -> bool;

    /// Write all of `bytes`.
    fn write_bytes(&mut self, bytes: &[u8]) -> (r: std::io::Result<()>)
        ensures
            Self::wrote(*old(self), *final(self), bytes@, r is Ok),
    ;

    /// Send out whatever is pending.
    fn flush_bytes(&mut self) -> (r: std::io::Result<()>)
        ensures
            Self::flushed(*old(self), *final(self), r is Ok),
    ;
}

/// Bytes collected in memory: every write succeeds and appends its bytes;
/// flushing changes nothing.
impl TerminalWriter for Vec<u8> {
    open spec fn wrote(old: Self, new: Self, bytes: Seq<u8>, ok: bool) -> bool {
        ok && new@ == old@ + bytes
    }

    open spec fn flushed(old: Self, new: Self, ok: bool) -> bool {
        ok && new@ == old@
    }

    fn write_bytes(&mut self, bytes: &[u8]) -> (r: std::io::Result<()>) {
        let mut i: usize = 0;
        while i < bytes.len()
            invariant
                i <= bytes@.len(),
                self@ == old(self)@ + bytes@.take(i as int),
            decreases bytes@.len() - i,
        {
            self.push(bytes[i]);
            assert(bytes@.take(i + 1) =~= bytes@.take(i as int).push(bytes@[i as int]));
            i = i + 1;
        }
        assert(bytes@.take(bytes@.len() as int) =~= bytes@);
        Ok(())
    }

    fn flush_bytes(&mut self) -> (r: std::io::Result<()>) {
        Ok(())
    }
}

/// The terminal on standard output. What reaches the device, and whether
/// it succeeds, is up to the operating system, so nothing is claimed of it.
impl TerminalWriter for std::io::Stdout {
    open spec fn wrote(old: Self, new: Self, bytes: Seq<u8>, ok: bool) -> bool {
        true
    }

    open spec fn flushed(old: Self, new: Self, ok: bool) -> bool {
        true
    }

    fn write_bytes(&mut self, bytes: &[u8]) -> (r: std::io::Result<()>) {
        stdout_write_all(self, bytes)
    }

    fn flush_bytes(&mut self) -> (r: std::io::Result<()>) {
        stdout_flush(self)
    }
}

/// The bytes of an ASCII text.
pub open spec fn ascii_bytes(s: Seq<char>) -> Seq<u8> {
    s.map_values(|c: char| c as u8)
}

/// `Command::write_ansi` of `cursor::Hide`, as bytes: `CSI ?25l`.
#[verifier::external_body]
fn hide_cursor_ansi() -> (r: Vec<u8>)
    ensures
        r@ == csi() + ascii_bytes(seq!['?', '2', '5', 'l']),
{
    let mut s = String::new();
    let _ = crossterm::Command::write_ansi(&crossterm::cursor::Hide, &mut s);
    s.into_bytes()
}

/// `Command::write_ansi` of `cursor::Show`, as bytes: `CSI ?25h`.
#[verifier::external_body]
fn show_cursor_ansi() -> (r: Vec<u8>)
    ensures
        r@ == csi() + ascii_bytes(seq!['?', '2', '5', 'h']),
{
    let mut s = String::new();
    let _ = crossterm::Command::write_ansi(&crossterm::cursor::Show, &mut s);
    s.into_bytes()
}

/// `Command::write_ansi` of `cursor::MoveTo(x, y)`, as bytes:
/// `CSI y+1 ; x+1 H`, the numbers in decimal. (Its `+ 1` would overflow at
/// the top of the `u16` range, which is left out.)
#[verifier::external_body]
fn move_to_ansi(x: u16, y: u16) -> (r: Vec<u8>)
    requires
        x < 65535,
        y < 65535,
    ensures
        r@ == csi() + decimal((y + 1) as nat) + ascii_bytes(seq![';']) + decimal((x + 1) as nat)
            + ascii_bytes(seq!['H']),
{
    let mut s = String::new();
    let _ = crossterm::Command::write_ansi(&crossterm::cursor::MoveTo(x, y), &mut s);
    s.into_bytes()
}

/// `Command::write_ansi` of `terminal::Clear(ClearType::All)`, as bytes:
/// `CSI 2J`.
#[verifier::external_body]
fn clear_all_ansi() -> (r: Vec<u8>)
    ensures
        r@ == csi() + ascii_bytes(seq!['2', 'J']),
{
    let mut s = String::new();
    let _ = crossterm::Command::write_ansi(&crossterm::terminal::Clear(crossterm::terminal::ClearType::All), &mut s);
    s.into_bytes()
}

/// `Command::write_ansi` of `event::EnableMouseCapture`, as bytes: the five
/// sequences `CSI ?1000h`, `CSI ?1002h`, `CSI ?1003h`, `CSI ?1015h`,
/// `CSI ?1006h`.
#[verifier::external_body]
fn enable_mouse_capture_ansi() -> (r: Vec<u8>)
    ensures
        r@ == csi() + ascii_bytes(seq!['?', '1', '0', '0', '0', 'h']) + csi() + ascii_bytes(
            seq!['?', '1', '0', '0', '2', 'h'],
        ) + csi() + ascii_bytes(seq!['?', '1', '0', '0', '3', 'h']) + csi() + ascii_bytes(
            seq!['?', '1', '0', '1', '5', 'h'],
        ) + csi() + ascii_bytes(seq!['?', '1', '0', '0', '6', 'h']),
{
    let mut s = String::new();
    let _ = crossterm::Command::write_ansi(&crossterm::event::EnableMouseCapture, &mut s);
    s.into_bytes()
}

/// `Command::write_ansi` of `event::DisableMouseCapture`, as bytes: the
/// inverse sequences in reverse order, `CSI ?1006l`, `CSI ?1015l`,
/// `CSI ?1003l`, `CSI ?1002l`, `CSI ?1000l`.
#[verifier::external_body]
fn disable_mouse_capture_ansi() -> (r: Vec<u8>)
    ensures
        r@ == csi() + ascii_bytes(seq!['?', '1', '0', '0', '6', 'l']) + csi() + ascii_bytes(
            seq!['?', '1', '0', '1', '5', 'l'],
        ) + csi() + ascii_bytes(seq!['?', '1', '0', '0', '3', 'l']) + csi() + ascii_bytes(
            seq!['?', '1', '0', '0', '2', 'l'],
        ) + csi() + ascii_bytes(seq!['?', '1', '0', '0', '0', 'l']),
{
    let mut s = String::new();
    let _ = crossterm::Command::write_ansi(&crossterm::event::DisableMouseCapture, &mut s);
    s.into_bytes()
}

/// `Command::write_ansi` of `terminal::EnterAlternateScreen`, as bytes:
/// `CSI ?1049h`.
#[verifier::external_body]
fn enter_alternate_screen_ansi() -> (r: Vec<u8>)
    ensures
        r@ == csi() + ascii_bytes(seq!['?', '1', '0', '4', '9', 'h']),
{
    let mut s = String::new();
    let _ = crossterm::Command::write_ansi(&crossterm::terminal::EnterAlternateScreen, &mut s);
    s.into_bytes()
}

/// `Command::write_ansi` of `terminal::LeaveAlternateScreen`, as bytes:
/// `CSI ?1049l`.
#[verifier::external_body]
fn leave_alternate_screen_ansi() -> (r: Vec<u8>)
    ensures
        r@ == csi() + ascii_bytes(seq!['?', '1', '0', '4', '9', 'l']),
{
    let mut s = String::new();
    let _ = crossterm::Command::write_ansi(&crossterm::terminal::LeaveAlternateScreen, &mut s);
    s.into_bytes()
}

/// `Command::write_ansi` of `event::EnableBracketedPaste`, as bytes:
/// `CSI ?2004h`.
#[verifier::external_body]
fn enable_bracketed_paste_ansi() -> (r: Vec<u8>)
    ensures
        r@ == csi() + ascii_bytes(seq!['?', '2', '0', '0', '4', 'h']),
{
    let mut s = String::new();
    let _ = crossterm::Command::write_ansi(&crossterm::event::EnableBracketedPaste, &mut s);
    s.into_bytes()
}

/// `Command::write_ansi` of `event::DisableBracketedPaste`, as bytes:
/// `CSI ?2004l`.
#[verifier::external_body]
fn disable_bracketed_paste_ansi() -> (r: Vec<u8>)
    ensures
        r@ == csi() + ascii_bytes(seq!['?', '2', '0', '0', '4', 'l']),
{
    let mut s = String::new();
    let _ = crossterm::Command::write_ansi(&crossterm::event::DisableBracketedPaste, &mut s);
    s.into_bytes()
}

/// `crossterm::cursor::position`: asks the terminal where its cursor is.
/// Nothing is stated of the answer, which comes from the device.
#[verifier::external_body]
fn terminal_cursor_position() -> std::io::Result<(u16, u16)> {
    crossterm::cursor::position()
}

/// `crossterm::terminal::size`: the terminal's columns and rows. Nothing is
/// stated of the answer, which comes from the device.
#[verifier::external_body]
fn terminal_size() -> std::io::Result<(u16, u16)> {
    crossterm::terminal::size()
}

/// `crossterm::terminal::enable_raw_mode`. Nothing is stated of the outcome.
#[verifier::external_body]
fn terminal_enable_raw_mode() -> std::io::Result<()> {
    crossterm::terminal::enable_raw_mode()
}

/// `crossterm::terminal::disable_raw_mode`. Nothing is stated of the
/// outcome.
#[verifier::external_body]
fn terminal_disable_raw_mode() -> std::io::Result<()> {
    crossterm::terminal::disable_raw_mode()
}

impl<W: TerminalWriter> CrosstermBackend<W> {
    /// Encode a frame of cells, each with an optional hyperlink target, into
    /// the scratch buffer and write it out in one call.
    fn encode_frame(&mut self, content: &[(u16, u16, &Cell, Option<&str>)]) -> (r: std::io::Result<()>)
        ensures
            W::wrote(old(self).sink(), final(self).sink(), frame_bytes(linked_strokes(content@)), r is Ok),
    {
        self.scratch.clear();
        encode_into(&mut self.scratch, content);
        self.writer.write_bytes(self.scratch.as_slice())
    }

    /// Hand the bytes of one command to the writer.
    fn send(&mut self, bytes: Vec<u8>) -> (r: std::io::Result<()>)
        ensures
            W::wrote(old(self).sink(), final(self).sink(), bytes@, r is Ok),
    {
        self.writer.write_bytes(bytes.as_slice())
    }
}

impl<W: TerminalWriter> Backend for CrosstermBackend<W> {
    /// Encodes the cells, with no hyperlinks, and writes them out.
    fn draw(&mut self, content: &[(u16, u16, &Cell)]) -> (r: std::io::Result<()>)
        ensures
            W::wrote(old(self).sink(), final(self).sink(), frame_bytes(plain_strokes(content@)), r is Ok),
    {
        let mut linked: Vec<(u16, u16, &Cell, Option<&str>)> = Vec::new();
        let mut i: usize = 0;
        while i < content.len()
            invariant
                i <= content@.len(),
                linked@.len() == i,
                linked_strokes(linked@) == plain_strokes(content@.take(i as int)),
            decreases content@.len() - i,
        {
            let (x, y, cell) = content[i];
            let ghost prev = linked@;
            linked.push((x, y, cell, None));
            assert(prev.len() == i);
            assert(content@.take(i + 1)[i as int] == content@[i as int]);
            assert(linked_strokes(linked@)[i as int] == plain_strokes(content@.take(i + 1))[i as int]);
            assert forall|k: int| 0 <= k < i implies linked_strokes(linked@)[k] == plain_strokes(
                content@.take(i + 1),
            )[k] by {
                assert(linked_strokes(prev)[k] == plain_strokes(content@.take(i as int))[k]);
                assert(linked@[k] == prev[k]);
                assert(content@.take(i + 1)[k] == content@.take(i as int)[k]);
            }
            assert(linked_strokes(linked@) =~= plain_strokes(content@.take(i + 1)));
            i = i + 1;
        }
        assert(content@.take(content@.len() as int) =~= content@);
        self.encode_frame(linked.as_slice())
    }

    /// Encodes the cells with their hyperlinks and writes them out.
    fn draw_linked(&mut self, content: &[(u16, u16, &Cell, Option<&str>)]) -> (r: std::io::Result<()>)
        ensures
            W::wrote(old(self).sink(), final(self).sink(), frame_bytes(linked_strokes(content@)), r is Ok),
    {
        self.encode_frame(content)
    }

    fn hide_cursor(&mut self) -> (r: std::io::Result<()>)
        ensures
            W::wrote(old(self).sink(), final(self).sink(), csi() + ascii_bytes(seq!['?', '2', '5', 'l']), r is Ok),
    {
        self.send(hide_cursor_ansi())
    }

    fn show_cursor(&mut self) -> (r: std::io::Result<()>)
        ensures
            W::wrote(old(self).sink(), final(self).sink(), csi() + ascii_bytes(seq!['?', '2', '5', 'h']), r is Ok),
    {
        self.send(show_cursor_ansi())
    }

    /// Moves the cursor; a position at the top of the `u16` range, beyond
    /// any terminal, is not sent.
    fn set_cursor_position(&mut self, position: Position) -> (r: std::io::Result<()>)
        ensures
            if position.x < 65535 && position.y < 65535 {
                W::wrote(
                    old(self).sink(),
                    final(self).sink(),
                    csi() + decimal((position.y + 1) as nat) + ascii_bytes(seq![';']) + decimal(
                        (position.x + 1) as nat,
                    ) + ascii_bytes(seq!['H']),
                    r is Ok,
                )
            } else {
                r is Ok && *final(self) == *old(self)
            },
    {
        if position.x < u16::MAX && position.y < u16::MAX {
            self.send(move_to_ansi(position.x, position.y))
        } else {
            Ok(())
        }
    }

    fn get_cursor_position(&mut self) -> (r: std::io::Result<Position>)
        ensures
            *final(self) == *old(self),
    {
        let (x, y) = terminal_cursor_position()?;
        Ok(Position::new(x, y))
    }

    fn clear(&mut self) -> (r: std::io::Result<()>)
        ensures
            W::wrote(old(self).sink(), final(self).sink(), csi() + ascii_bytes(seq!['2', 'J']), r is Ok),
    {
        self.send(clear_all_ansi())
    }

    fn size(&self) -> std::io::Result<Size> {
        let (cols, rows) = terminal_size()?;
        Ok(Size::new(cols, rows))
    }

    fn flush(&mut self) -> (r: std::io::Result<()>)
        ensures
            W::flushed(old(self).sink(), final(self).sink(), r is Ok),
    {
        self.writer.flush_bytes()
    }

    fn enable_mouse_capture(&mut self) -> (r: std::io::Result<()>)
        ensures
            W::wrote(old(self).sink(), final(self).sink(), csi() + ascii_bytes(seq!['?', '1', '0', '0', '0', 'h']) + csi() + ascii_bytes(seq!['?', '1', '0', '0', '2', 'h']) + csi() + ascii_bytes(seq!['?', '1', '0', '0', '3', 'h']) + csi() + ascii_bytes(seq!['?', '1', '0', '1', '5', 'h']) + csi() + ascii_bytes(seq!['?', '1', '0', '0', '6', 'h']), r is Ok),
    {
        self.send(enable_mouse_capture_ansi())
    }

    fn disable_mouse_capture(&mut self) -> (r: std::io::Result<()>)
        ensures
            W::wrote(old(self).sink(), final(self).sink(), csi() + ascii_bytes(seq!['?', '1', '0', '0', '6', 'l']) + csi() + ascii_bytes(seq!['?', '1', '0', '1', '5', 'l']) + csi() + ascii_bytes(seq!['?', '1', '0', '0', '3', 'l']) + csi() + ascii_bytes(seq!['?', '1', '0', '0', '2', 'l']) + csi() + ascii_bytes(seq!['?', '1', '0', '0', '0', 'l']), r is Ok),
    {
        self.send(disable_mouse_capture_ansi())
    }

    fn enter_alternate_screen(&mut self) -> (r: std::io::Result<()>)
        ensures
            W::wrote(old(self).sink(), final(self).sink(), csi() + ascii_bytes(seq!['?', '1', '0', '4', '9', 'h']), r is Ok),
    {
        self.send(enter_alternate_screen_ansi())
    }

    fn leave_alternate_screen(&mut self) -> (r: std::io::Result<()>)
        ensures
            W::wrote(old(self).sink(), final(self).sink(), csi() + ascii_bytes(seq!['?', '1', '0', '4', '9', 'l']), r is Ok),
    {
        self.send(leave_alternate_screen_ansi())
    }

    fn enable_raw_mode(&mut self) -> std::io::Result<()> {
        terminal_enable_raw_mode()
    }

    fn disable_raw_mode(&mut self) -> std::io::Result<()> {
        terminal_disable_raw_mode()
    }

    fn enable_bracketed_paste(&mut self) -> (r: std::io::Result<()>)
        ensures
            W::wrote(old(self).sink(), final(self).sink(), csi() + ascii_bytes(seq!['?', '2', '0', '0', '4', 'h']), r is Ok),
    {
        self.send(enable_bracketed_paste_ansi())
    }

    fn disable_bracketed_paste(&mut self) -> (r: std::io::Result<()>)
        ensures
            W::wrote(old(self).sink(), final(self).sink(), csi() + ascii_bytes(seq!['?', '2', '0', '0', '4', 'l']), r is Ok),
    {
        self.send(disable_bracketed_paste_ansi())
    }

    /// Writes `CSI ?2026h`.
    fn begin_sync(&mut self) -> (r: std::io::Result<()>)
        ensures
            W::wrote(old(self).sink(), final(self).sink(), csi() + ascii_bytes(seq!['?', '2', '0', '2', '6', 'h']), r is Ok),
    {
        let bytes = vec![0x1bu8, 0x5bu8, 0x3fu8, 0x32u8, 0x30u8, 0x32u8, 0x36u8, 0x68u8];
        assert(bytes@ =~= csi() + ascii_bytes(seq!['?', '2', '0', '2', '6', 'h']));
        self.send(bytes)
    }

    /// Writes `CSI ?2026l`.
    fn end_sync(&mut self) -> (r: std::io::Result<()>)
        ensures
            W::wrote(old(self).sink(), final(self).sink(), csi() + ascii_bytes(seq!['?', '2', '0', '2', '6', 'l']), r is Ok),
    {
        let bytes = vec![0x1bu8, 0x5bu8, 0x3fu8, 0x32u8, 0x30u8, 0x32u8, 0x36u8, 0x6cu8];
        assert(bytes@ =~= csi() + ascii_bytes(seq!['?', '2', '0', '2', '6', 'l']));
        self.send(bytes)
    }
}

} // verus!
