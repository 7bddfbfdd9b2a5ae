//! Colors, text modifiers and styles.
use vstd::prelude::*;

verus! {

/// Terminal color.
#[derive(Debug, Clone, Copy, PartialEq, Eq, Hash, Structural)]
pub enum Color {
    Reset,
    Black,
    Red,
    Green,
    Yellow,
    Blue,
    Magenta,
    Cyan,
    Gray,
    DarkGray,
    LightRed,
    LightGreen,
    LightYellow,
    LightBlue,
    LightMagenta,
    LightCyan,
    White,
    /// 256-color palette index.
    Indexed(u8),
    /// True color (24-bit RGB).
    Rgb(u8, u8, u8),
}

/// The uppercase hexadecimal digit for `d`, below 16.
pub open spec fn hex_digit(d: int) -> char {
    if d < 10 { (48 + d) as char } else { (55 + d) as char }
}

/// A byte as two uppercase hexadecimal digits.
pub open spec fn hex_byte(b: u8) -> Seq<char> {
    seq![hex_digit(b as int / 16), hex_digit(b as int % 16)]
}

/// The decimal digits of `n`.
pub open spec fn decimal_chars(n: nat) -> Seq<char>
    decreases n,
{
    if n < 10 {
        seq![(48 + n) as char]
    } else {
        decimal_chars(n / 10).push((48 + n % 10) as char)
    }
}

/// How a color is written: `#RRGGBB` for a true color, `color(i)` for a
/// palette index, otherwise the name of the variant.
pub open spec fn color_text(c: Color) -> Seq<char> {
    match c {
        Color::Reset => "Reset"@,
        Color::Black => "Black"@,
        Color::Red => "Red"@,
        Color::Green => "Green"@,
        Color::Yellow => "Yellow"@,
        Color::Blue => "Blue"@,
        Color::Magenta => "Magenta"@,
        Color::Cyan => "Cyan"@,
        Color::Gray => "Gray"@,
        Color::DarkGray => "DarkGray"@,
        Color::LightRed => "LightRed"@,
        Color::LightGreen => "LightGreen"@,
        Color::LightYellow => "LightYellow"@,
        Color::LightBlue => "LightBlue"@,
        Color::LightMagenta => "LightMagenta"@,
        Color::LightCyan => "LightCyan"@,
        Color::White => "White"@,
        Color::Indexed(i) => "color("@ + decimal_chars(i as nat) + ")"@,
        Color::Rgb(r, g, b) => seq!['#'] + hex_byte(r) + hex_byte(g) + hex_byte(b),
    }
}

fn push_hex_byte(out: &mut String, b: u8)
    ensures
        final(out)@ == old(out)@ + hex_byte(b),
{
    let hi = b / 16;
    let lo = b % 16;
    let c1 = if hi < 10 { (48 + hi) as char } else { (55 + hi) as char };
    let c2 = if lo < 10 { (48 + lo) as char } else { (55 + lo) as char };
    crate::base::chars::string_push(out, c1);
    crate::base::chars::string_push(out, c2);
    assert(final(out)@ =~= old(out)@ + hex_byte(b));
}

fn push_decimal_u8(out: &mut String, n: u8)
    ensures
        final(out)@ == old(out)@ + decimal_chars(n as nat),
{
    if n >= 100 {
        crate::base::chars::string_push(out, (48 + n / 100) as char);
        crate::base::chars::string_push(out, (48 + (n / 10) % 10) as char);
        crate::base::chars::string_push(out, (48 + n % 10) as char);
    } else if n >= 10 {
        crate::base::chars::string_push(out, (48 + n / 10) as char);
        crate::base::chars::string_push(out, (48 + n % 10) as char);
    } else {
        crate::base::chars::string_push(out, (48 + n) as char);
    }
    proof {
        reveal_with_fuel(decimal_chars, 3);
    }
    assert(final(out)@ =~= old(out)@ + decimal_chars(n as nat));
}

impl Color {
    /// How the color is written: `#RRGGBB` for a true color, `color(i)`
    /// for a palette index, otherwise the name of the variant.
    pub fn name(&self) -> (r: String)
        ensures
            r@ == color_text(*self),
    {
        let mut out = String::new();
        match self {
            Color::Rgb(r, g, b) => {
                crate::base::chars::string_push(&mut out, '#');
                push_hex_byte(&mut out, *r);
                push_hex_byte(&mut out, *g);
                push_hex_byte(&mut out, *b);
            },
            Color::Indexed(i) => {
                crate::base::chars::string_push_str(&mut out, "color(");
                push_decimal_u8(&mut out, *i);
                crate::base::chars::string_push_str(&mut out, ")");
            },
            Color::Reset => crate::base::chars::string_push_str(&mut out, "Reset"),
            Color::Black => crate::base::chars::string_push_str(&mut out, "Black"),
            Color::Red => crate::base::chars::string_push_str(&mut out, "Red"),
            Color::Green => crate::base::chars::string_push_str(&mut out, "Green"),
            Color::Yellow => crate::base::chars::string_push_str(&mut out, "Yellow"),
            Color::Blue => crate::base::chars::string_push_str(&mut out, "Blue"),
            Color::Magenta => crate::base::chars::string_push_str(&mut out, "Magenta"),
            Color::Cyan => crate::base::chars::string_push_str(&mut out, "Cyan"),
            Color::Gray => crate::base::chars::string_push_str(&mut out, "Gray"),
            Color::DarkGray => crate::base::chars::string_push_str(&mut out, "DarkGray"),
            Color::LightRed => crate::base::chars::string_push_str(&mut out, "LightRed"),
            Color::LightGreen => crate::base::chars::string_push_str(&mut out, "LightGreen"),
            Color::LightYellow => crate::base::chars::string_push_str(&mut out, "LightYellow"),
            Color::LightBlue => crate::base::chars::string_push_str(&mut out, "LightBlue"),
            Color::LightMagenta => crate::base::chars::string_push_str(&mut out, "LightMagenta"),
            Color::LightCyan => crate::base::chars::string_push_str(&mut out, "LightCyan"),
            Color::White => crate::base::chars::string_push_str(&mut out, "White"),
        }
        assert(out@ =~= color_text(*self));
        out
    }
}

impl Default for Color {
    fn default() -> (r: Color)
        ensures
            r == Color::Reset,
    {
        Color::Reset
    }
}

/// Text modifiers, one bit per attribute.
#[derive(Debug, Clone, Copy, PartialEq, Eq, Hash, Default, Structural)]
pub struct Modifier(pub u16);

/// The flags set in either argument.
pub open spec fn bits_union(a: u16, b: u16) -> u16 {
    a | b
}

/// The flags set in `a` but not in `b`.
pub open spec fn bits_difference(a: u16, b: u16) -> u16 {
    a & !b
}

/// Whether every flag of `b` is set in `a`.
pub open spec fn bits_contain(a: u16, b: u16) -> bool {
    a & b == b
}

impl Modifier {
    #[allow(non_snake_case)]
    pub fn NONE() -> (r: Self)
        ensures r.0 == 0,
    {
        Modifier(0)
    }

    #[allow(non_snake_case)]
    pub fn BOLD() -> (r: Self)
        ensures r.0 == 1,
    {
        Modifier(1)
    }

    #[allow(non_snake_case)]
    pub fn DIM() -> (r: Self)
        ensures r.0 == 2,
    {
        Modifier(2)
    }

    #[allow(non_snake_case)]
    pub fn ITALIC() -> (r: Self)
        ensures r.0 == 4,
    {
        Modifier(4)
    }

    #[allow(non_snake_case)]
    pub fn UNDERLINED() -> (r: Self)
        ensures r.0 == 8,
    {
        Modifier(8)
    }

    #[allow(non_snake_case)]
    pub fn SLOW_BLINK() -> (r: Self)
        ensures r.0 == 16,
    {
        Modifier(16)
    }

    #[allow(non_snake_case)]
    pub fn RAPID_BLINK() -> (r: Self)
        ensures r.0 == 32,
    {
        Modifier(32)
    }

    #[allow(non_snake_case)]
    pub fn REVERSED() -> (r: Self)
        ensures r.0 == 64,
    {
        Modifier(64)
    }

    #[allow(non_snake_case)]
    pub fn HIDDEN() -> (r: Self)
        ensures r.0 == 128,
    {
        Modifier(128)
    }

    #[allow(non_snake_case)]
    pub fn CROSSED_OUT() -> (r: Self)
        ensures r.0 == 256,
    {
        Modifier(256)
    }

    #[allow(non_snake_case)]
    pub fn DOUBLE_UNDERLINED() -> (r: Self)
        ensures r.0 == 512,
    {
        Modifier(512)
    }

    #[allow(non_snake_case)]
    pub fn UNDERCURLED() -> (r: Self)
        ensures r.0 == 1024,
    {
        Modifier(1024)
    }

    #[allow(non_snake_case)]
    pub fn UNDERDOTTED() -> (r: Self)
        ensures r.0 == 2048,
    {
        Modifier(2048)
    }

    #[allow(non_snake_case)]
    pub fn UNDERDASHED() -> (r: Self)
        ensures r.0 == 4096,
    {
        Modifier(4096)
    }

    #[allow(non_snake_case)]
    pub fn OVERLINED() -> (r: Self)
        ensures r.0 == 8192,
    {
        Modifier(8192)
    }

    #[allow(non_snake_case)]
    pub fn SUPERSCRIPT() -> (r: Self)
        ensures r.0 == 16384,
    {
        Modifier(16384)
    }

    #[allow(non_snake_case)]
    pub fn SUBSCRIPT() -> (r: Self)
        ensures r.0 == 32768,
    {
        Modifier(32768)
    }

    pub fn empty() -> (r: Self)
        ensures r.0 == 0,
    {
        Modifier(0)
    }

    pub fn contains(self, other: Self) -> (r: bool)
        ensures r == bits_contain(self.0, other.0),
    {
        self.0 & other.0 == other.0
    }

    pub fn union(self, other: Self) -> (r: Self)
        ensures r.0 == bits_union(self.0, other.0),
    {
        Modifier(self.0 | other.0)
    }

    pub fn difference(self, other: Self) -> (r: Self)
        ensures r.0 == bits_difference(self.0, other.0),
    {
        Modifier(self.0 & !other.0)
    }

    pub fn is_empty(self) -> (r: bool)
        ensures r == (self.0 == 0),
    {
        self.0 == 0
    }
}

/// Complete styling specification for a terminal cell.
#[derive(Debug, Clone, Copy, PartialEq, Eq, Hash, Structural)]
pub struct Style {
    pub fg: Option<Color>,
    pub bg: Option<Color>,
    pub underline_color: Option<Color>,
    pub add_modifier: Modifier,
    pub sub_modifier: Modifier,
}

/// The style that changes nothing.
pub open spec fn plain_style() -> Style {
    Style { fg: None, bg: None, underline_color: None, add_modifier: Modifier(0), sub_modifier: Modifier(0) }
}

/// `base` with `other` layered on top: set colors win, and modifiers that
/// `other` adds or removes override those of `base`.
pub open spec fn patch_style(base: Style, other: Style) -> Style {
    Style {
        fg: if other.fg is Some { other.fg } else { base.fg },
        bg: if other.bg is Some { other.bg } else { base.bg },
        underline_color: if other.underline_color is Some {
            other.underline_color
        } else {
            base.underline_color
        },
        add_modifier: Modifier(
            bits_union(bits_difference(base.add_modifier.0, other.sub_modifier.0), other.add_modifier.0),
        ),
        sub_modifier: Modifier(
            bits_union(bits_difference(base.sub_modifier.0, other.add_modifier.0), other.sub_modifier.0),
        ),
    }
}

/// The plain style with a foreground color.
pub open spec fn fg_style(c: Color) -> Style {
    Style { fg: Some(c), ..plain_style() }
}

/// The plain style with a background color.
pub open spec fn bg_style(c: Color) -> Style {
    Style { bg: Some(c), ..plain_style() }
}

/// The plain style that adds the modifier bits `m`.
pub open spec fn add_style(m: u16) -> Style {
    plain_style().adding(m)
}

impl Style {
    pub fn new() -> (r: Self)
        ensures r == plain_style(),
    {
        Style { fg: None, bg: None, underline_color: None, add_modifier: Modifier(0), sub_modifier: Modifier(0) }
    }

    /// Reset all style fields.
    pub fn reset() -> (r: Self)
        ensures
            r == (Style { fg: Some(Color::Reset), bg: Some(Color::Reset), underline_color: Some(Color::Reset), ..plain_style() }),
    {
        Style {
            fg: Some(Color::Reset),
            bg: Some(Color::Reset),
            underline_color: Some(Color::Reset),
            add_modifier: Modifier(0),
            sub_modifier: Modifier(0),
        }
    }

    pub fn fg(self, color: Color) -> (r: Self)
        ensures r == (Style { fg: Some(color), ..self }),
    {
        Style { fg: Some(color), ..self }
    }

    pub fn bg(self, color: Color) -> (r: Self)
        ensures r == (Style { bg: Some(color), ..self }),
    {
        Style { bg: Some(color), ..self }
    }

    pub fn underline_color(self, color: Color) -> (r: Self)
        ensures r == (Style { underline_color: Some(color), ..self }),
    {
        Style { underline_color: Some(color), ..self }
    }

    /// `self` with the modifier bits `bits` added.
    pub open spec fn adding(self, bits: u16) -> Style {
        Style { add_modifier: Modifier(bits_union(self.add_modifier.0, bits)), ..self }
    }

    /// `self` with the modifier bits `bits` marked as removed.
    pub open spec fn removing(self, bits: u16) -> Style {
        Style { sub_modifier: Modifier(bits_union(self.sub_modifier.0, bits)), ..self }
    }

    pub fn bold(self) -> (r: Self)
        ensures r == self.adding(1),
    {
        Style { add_modifier: self.add_modifier.union(Modifier(1)), ..self }
    }

    pub fn dim(self) -> (r: Self)
        ensures r == self.adding(2),
    {
        Style { add_modifier: self.add_modifier.union(Modifier(2)), ..self }
    }

    pub fn italic(self) -> (r: Self)
        ensures r == self.adding(4),
    {
        Style { add_modifier: self.add_modifier.union(Modifier(4)), ..self }
    }

    pub fn underlined(self) -> (r: Self)
        ensures r == self.adding(8),
    {
        Style { add_modifier: self.add_modifier.union(Modifier(8)), ..self }
    }

    pub fn reversed(self) -> (r: Self)
        ensures r == self.adding(64),
    {
        Style { add_modifier: self.add_modifier.union(Modifier(64)), ..self }
    }

    pub fn crossed_out(self) -> (r: Self)
        ensures r == self.adding(256),
    {
        Style { add_modifier: self.add_modifier.union(Modifier(256)), ..self }
    }

    pub fn hidden(self) -> (r: Self)
        ensures r == self.adding(128),
    {
        Style { add_modifier: self.add_modifier.union(Modifier(128)), ..self }
    }

    pub fn slow_blink(self) -> (r: Self)
        ensures r == self.adding(16),
    {
        Style { add_modifier: self.add_modifier.union(Modifier(16)), ..self }
    }

    pub fn rapid_blink(self) -> (r: Self)
        ensures r == self.adding(32),
    {
        Style { add_modifier: self.add_modifier.union(Modifier(32)), ..self }
    }

    pub fn overlined(self) -> (r: Self)
        ensures r == self.adding(8192),
    {
        Style { add_modifier: self.add_modifier.union(Modifier(8192)), ..self }
    }

    pub fn not_bold(self) -> (r: Self)
        ensures r == self.removing(1),
    {
        Style { sub_modifier: self.sub_modifier.union(Modifier(1)), ..self }
    }

    pub fn not_italic(self) -> (r: Self)
        ensures r == self.removing(4),
    {
        Style { sub_modifier: self.sub_modifier.union(Modifier(4)), ..self }
    }

    pub fn not_underlined(self) -> (r: Self)
        ensures r == self.removing(8),
    {
        Style { sub_modifier: self.sub_modifier.union(Modifier(8)), ..self }
    }

    /// Merge another style on top of this one: `other`'s set fields override
    /// `self`'s.
    pub fn patch(self, other: Style) -> (r: Self)
        ensures r == patch_style(self, other),
    {
        let fg = if other.fg.is_some() { other.fg } else { self.fg };
        let bg = if other.bg.is_some() { other.bg } else { self.bg };
        let underline_color = if other.underline_color.is_some() {
            other.underline_color
        } else {
            self.underline_color
        };
        let add_modifier = self.add_modifier.difference(other.sub_modifier).union(other.add_modifier);
        let sub_modifier = self.sub_modifier.difference(other.add_modifier).union(other.sub_modifier);
        Style { fg, bg, underline_color, add_modifier, sub_modifier }
    }
}

impl Default for Style {
    fn default() -> (r: Style)
        ensures
            r == plain_style(),
    {
        Style::new()
    }
}

/// A fluent shorthand for applying styles to styled values.
pub trait Stylize: Sized {
    /// The value with `style` applied.
    spec fn stylized(self, style: Style) -> Self;

    fn style(self, style: Style) -> (r: Self)
        ensures r == self.stylized(style);

    fn red(self) -> (r: Self)
        ensures r == self.stylized(fg_style(Color::Red)),
    {
        self.style(Style::new().fg(Color::Red))
    }

    fn green(self) -> (r: Self)
        ensures r == self.stylized(fg_style(Color::Green)),
    {
        self.style(Style::new().fg(Color::Green))
    }

    fn yellow(self) -> (r: Self)
        ensures r == self.stylized(fg_style(Color::Yellow)),
    {
        self.style(Style::new().fg(Color::Yellow))
    }

    fn blue(self) -> (r: Self)
        ensures r == self.stylized(fg_style(Color::Blue)),
    {
        self.style(Style::new().fg(Color::Blue))
    }

    fn magenta(self) -> (r: Self)
        ensures r == self.stylized(fg_style(Color::Magenta)),
    {
        self.style(Style::new().fg(Color::Magenta))
    }

    fn cyan(self) -> (r: Self)
        ensures r == self.stylized(fg_style(Color::Cyan)),
    {
        self.style(Style::new().fg(Color::Cyan))
    }

    fn white(self) -> (r: Self)
        ensures r == self.stylized(fg_style(Color::White)),
    {
        self.style(Style::new().fg(Color::White))
    }

    fn gray(self) -> (r: Self)
        ensures r == self.stylized(fg_style(Color::Gray)),
    {
        self.style(Style::new().fg(Color::Gray))
    }

    fn on_red(self) -> (r: Self)
        ensures r == self.stylized(bg_style(Color::Red)),
    {
        self.style(Style::new().bg(Color::Red))
    }

    fn on_green(self) -> (r: Self)
        ensures r == self.stylized(bg_style(Color::Green)),
    {
        self.style(Style::new().bg(Color::Green))
    }

    fn on_yellow(self) -> (r: Self)
        ensures r == self.stylized(bg_style(Color::Yellow)),
    {
        self.style(Style::new().bg(Color::Yellow))
    }

    fn on_blue(self) -> (r: Self)
        ensures r == self.stylized(bg_style(Color::Blue)),
    {
        self.style(Style::new().bg(Color::Blue))
    }

    fn on_magenta(self) -> (r: Self)
        ensures r == self.stylized(bg_style(Color::Magenta)),
    {
        self.style(Style::new().bg(Color::Magenta))
    }

    fn on_cyan(self) -> (r: Self)
        ensures r == self.stylized(bg_style(Color::Cyan)),
    {
        self.style(Style::new().bg(Color::Cyan))
    }

    fn on_white(self) -> (r: Self)
        ensures r == self.stylized(bg_style(Color::White)),
    {
        self.style(Style::new().bg(Color::White))
    }

    fn bold(self) -> (r: Self)
        ensures r == self.stylized(add_style(1)),
    {
        self.style(Style::new().bold())
    }

    fn dim(self) -> (r: Self)
        ensures r == self.stylized(add_style(2)),
    {
        self.style(Style::new().dim())
    }

    fn italic(self) -> (r: Self)
        ensures r == self.stylized(add_style(4)),
    {
        self.style(Style::new().italic())
    }

    fn underlined(self) -> (r: Self)
        ensures r == self.stylized(add_style(8)),
    {
        self.style(Style::new().underlined())
    }

    fn reversed(self) -> (r: Self)
        ensures r == self.stylized(add_style(64)),
    {
        self.style(Style::new().reversed())
    }

    fn crossed_out(self) -> (r: Self)
        ensures r == self.stylized(add_style(256)),
    {
        self.style(Style::new().crossed_out())
    }
}

impl Stylize for Style {
    open spec fn stylized(self, style: Style) -> Style {
        patch_style(self, style)
    }

    fn style(self, style: Style) -> (r: Style) {
        self.patch(style)
    }
}

/// Patching with the plain style changes nothing.
pub proof fn lemma_patch_plain_is_identity(s: Style)
    ensures
        patch_style(s, plain_style()) == s,
{
    let (x, y) = (s.add_modifier.0, s.sub_modifier.0);
    assert(x & !0u16 | 0u16 == x) by (bit_vector);
    assert(y & !0u16 | 0u16 == y) by (bit_vector);
}

/// Patching is associative: layering `b` then `c` on `a` is layering the
/// combination of `b` and `c` on `a`.
pub proof fn lemma_patch_associative(a: Style, b: Style, c: Style)
    ensures
        patch_style(patch_style(a, b), c) == patch_style(a, patch_style(b, c)),
{
    let (aa, asub, ba, bs, ca, cs) = (a.add_modifier.0, a.sub_modifier.0, b.add_modifier.0, b.sub_modifier.0, c.add_modifier.0, c.sub_modifier.0);
    assert(((aa & !bs) | ba) & !cs | ca == (aa & !((bs & !ca) | cs)) | ((ba & !cs) | ca)) by (bit_vector);
    assert(((asub & !ba) | bs) & !ca | cs == (asub & !((ba & !cs) | ca)) | ((bs & !ca) | cs)) by (bit_vector);
}

/// After a patch, no modifier is both added and removed, provided the patch
/// itself does not add and remove the same modifier.
pub proof fn lemma_patch_keeps_modifiers_disjoint(a: Style, b: Style)
    requires
        a.add_modifier.0 & a.sub_modifier.0 == 0,
        b.add_modifier.0 & b.sub_modifier.0 == 0,
    ensures
        ({
            let p = patch_style(a, b);
            p.add_modifier.0 & p.sub_modifier.0 == 0
        }),
{
    let (aa, asub, ba, bs) = (a.add_modifier.0, a.sub_modifier.0, b.add_modifier.0, b.sub_modifier.0);
    assert(aa & asub == 0 && ba & bs == 0 ==> ((aa & !bs) | ba) & ((asub & !ba) | bs) == 0) by (bit_vector);
}

} // verus!
