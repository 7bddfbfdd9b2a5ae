//! Theming with semantic style tokens: named styles for consistent styling
//! across widgets, with built-in dark and light themes.
use vstd::prelude::*;
use crate::base::style::{Color, Modifier, Style, plain_style};

verus! {

/// Semantic token names for themed UI elements.
#[derive(Debug, Clone, Copy, PartialEq, Eq, Hash, Structural)]
pub enum ThemeToken {
    /// Primary foreground text.
    Primary,
    /// Secondary / muted text.
    Secondary,
    /// Accent color for highlights and active elements.
    Accent,
    /// Error / failure indicators.
    Error,
    /// Warning indicators.
    Warning,
    /// Success indicators.
    Success,
    /// Informational text.
    Info,
    /// Default background.
    Background,
    /// Surface (slightly raised, e.g. panels).
    Surface,
    /// Overlay background (modals, dropdowns).
    Overlay,
    /// Borders and separators.
    Border,
    /// Focused border.
    BorderFocused,
    /// Selection highlight.
    Selection,
    /// Cursor / caret.
    Cursor,
    /// Placeholder text.
    Placeholder,
    /// Status bar.
    StatusBar,
    /// Title / heading text.
    Title,
    /// Added lines.
    DiffAdd,
    /// Removed lines.
    DiffRemove,
    /// Code block background.
    CodeBlock,
}

/// A theme: a mapping from semantic tokens to styles.
#[derive(Debug)]
pub struct Theme {
    pub name: String,
    tokens: Vec<(ThemeToken, Style)>,
}

/// The style the first entry for `t` gives, if any.
pub open spec fn lookup(tokens: Seq<(ThemeToken, Style)>, t: ThemeToken) -> Option<Style>
    decreases tokens.len(),
{
    if tokens.len() == 0 {
        None
    } else if tokens[0].0 == t {
        Some(tokens[0].1)
    } else {
        lookup(tokens.drop_first(), t)
    }
}

impl Theme {
    /// The theme's name.
    pub closed spec fn theme_name(&self) -> Seq<char> {
        self.name@
    }

    /// The token entries, in the order they were first set.
    pub closed spec fn entries(&self) -> Seq<(ThemeToken, Style)> {
        self.tokens@
    }

    /// The style a token resolves to: its entry, or the plain style.
    pub open spec fn style_of(&self, t: ThemeToken) -> Style {
        match lookup(self.entries(), t) {
            Some(s) => s,
            None => plain_style(),
        }
    }

    /// A new theme with no token set.
    pub fn new(name: String) -> (r: Self)
        ensures
            r.theme_name() == name@,
            r.entries() == Seq::<(ThemeToken, Style)>::empty(),
    {
        Theme { name, tokens: Vec::new() }
    }

    /// The theme with `token` set to `style`: the token's entry is replaced
    /// if it has one, otherwise one is appended.
    pub fn set(self, token: ThemeToken, style: Style) -> (r: Self)
        ensures
            r.theme_name() == self.theme_name(),
            lookup(r.entries(), token) == Some(style),
            forall|u: ThemeToken| u != token ==> #[trigger] lookup(r.entries(), u) == lookup(self.entries(), u),
    {
        let ghost nm = self.theme_name();
        let name = self.name;
        let mut tokens = self.tokens;
        let ghost old_tokens = tokens@;
        let mut i: usize = 0;
        while i < tokens.len()
            invariant
                name@ == nm,
                nm == self.theme_name(),
                old_tokens == self.entries(),
                i <= tokens@.len(),
                tokens@ == old_tokens,
                forall|k: int| 0 <= k < i ==> (#[trigger] tokens@[k]).0 != token,
            decreases tokens@.len() - i,
        {
            if tokens[i].0 == token {
                tokens.set(i, (token, style));
                proof {
                    lemma_lookup_update(old_tokens, i as int, token, style);
                }
                return Theme { name, tokens };
            }
            i = i + 1;
        }
        tokens.push((token, style));
        proof {
            lemma_lookup_push(old_tokens, token, style);
        }
        Theme { name, tokens }
    }

    /// The style for a token, or the plain style if it is not set.
    pub fn get(&self, token: ThemeToken) -> (r: Style)
        ensures
            r == self.style_of(token),
    {
        let mut i: usize = 0;
        assert(self.tokens@.skip(0) =~= self.tokens@);
        while i < self.tokens.len()
            invariant
                i <= self.tokens@.len(),
                lookup(self.tokens@, token) == lookup(self.tokens@.skip(i as int), token),
            decreases self.tokens@.len() - i,
        {
            proof {
                assert(self.tokens@.skip(i as int).drop_first() =~= self.tokens@.skip(i + 1));
            }
            if self.tokens[i].0 == token {
                return self.tokens[i].1;
            }
            i = i + 1;
        }
        proof {
            assert(self.tokens@.skip(i as int).len() == 0);
        }
        Style::new()
    }

    /// The built-in dark theme.
    pub fn dark() -> (r: Self)
        ensures
            r.theme_name() == "dark"@,
            forall|t: ThemeToken| #[trigger] r.style_of(t) == dark_style(t),
    {
        let name = "dark".to_owned();
        let r = Theme::new(name)
            .set(ThemeToken::Primary, Style::new().fg(Color::White))
            .set(ThemeToken::Secondary, Style::new().fg(Color::Gray))
            .set(ThemeToken::Accent, Style::new().fg(Color::Cyan))
            .set(ThemeToken::Error, Style::new().fg(Color::Red))
            .set(ThemeToken::Warning, Style::new().fg(Color::Yellow))
            .set(ThemeToken::Success, Style::new().fg(Color::Green))
            .set(ThemeToken::Info, Style::new().fg(Color::Blue))
            .set(ThemeToken::Background, Style::new().bg(Color::Black))
            .set(ThemeToken::Surface, Style::new().bg(Color::Rgb(30, 30, 30)))
            .set(ThemeToken::Overlay, Style::new().bg(Color::Rgb(40, 40, 40)))
            .set(ThemeToken::Border, Style::new().fg(Color::DarkGray))
            .set(ThemeToken::BorderFocused, Style::new().fg(Color::Cyan))
            .set(ThemeToken::Selection, Style::new().bg(Color::Rgb(50, 50, 80)))
            .set(ThemeToken::Cursor, Style::new().fg(Color::Black).bg(Color::White))
            .set(ThemeToken::Placeholder, Style::new().fg(Color::DarkGray))
            .set(ThemeToken::StatusBar, Style::new().fg(Color::White).bg(Color::Rgb(30, 30, 50)))
            .set(ThemeToken::Title, style_with_modifier(Color::White, Modifier::BOLD()))
            .set(ThemeToken::DiffAdd, Style::new().fg(Color::Green))
            .set(ThemeToken::DiffRemove, Style::new().fg(Color::Red))
            .set(ThemeToken::CodeBlock, Style::new().bg(Color::Rgb(25, 25, 25)));
        r
    }

    /// The built-in light theme.
    pub fn light() -> (r: Self)
        ensures
            r.theme_name() == "light"@,
            forall|t: ThemeToken| #[trigger] r.style_of(t) == light_style(t),
    {
        let name = "light".to_owned();
        let r = Theme::new(name)
            .set(ThemeToken::Primary, Style::new().fg(Color::Black))
            .set(ThemeToken::Secondary, Style::new().fg(Color::DarkGray))
            .set(ThemeToken::Accent, Style::new().fg(Color::Blue))
            .set(ThemeToken::Error, Style::new().fg(Color::Red))
            .set(ThemeToken::Warning, Style::new().fg(Color::Yellow))
            .set(ThemeToken::Success, Style::new().fg(Color::Green))
            .set(ThemeToken::Info, Style::new().fg(Color::Cyan))
            .set(ThemeToken::Background, Style::new().bg(Color::White))
            .set(ThemeToken::Surface, Style::new().bg(Color::Rgb(240, 240, 240)))
            .set(ThemeToken::Overlay, Style::new().bg(Color::Rgb(230, 230, 230)))
            .set(ThemeToken::Border, Style::new().fg(Color::Gray))
            .set(ThemeToken::BorderFocused, Style::new().fg(Color::Blue))
            .set(ThemeToken::Selection, Style::new().bg(Color::Rgb(180, 210, 255)))
            .set(ThemeToken::Cursor, Style::new().fg(Color::White).bg(Color::Black))
            .set(ThemeToken::Placeholder, Style::new().fg(Color::Gray))
            .set(ThemeToken::StatusBar, Style::new().fg(Color::Black).bg(Color::Rgb(230, 230, 240)))
            .set(ThemeToken::Title, style_with_modifier(Color::Black, Modifier::BOLD()))
            .set(ThemeToken::DiffAdd, Style::new().fg(Color::Rgb(0, 100, 0)))
            .set(ThemeToken::DiffRemove, Style::new().fg(Color::Rgb(150, 0, 0)))
            .set(ThemeToken::CodeBlock, Style::new().bg(Color::Rgb(245, 245, 245)));
        r
    }
}

/// A style with a foreground color only.
pub open spec fn fg_only(c: Color) -> Style {
    Style { fg: Some(c), ..plain_style() }
}

/// A style with a background color only.
pub open spec fn bg_only(c: Color) -> Style {
    Style { bg: Some(c), ..plain_style() }
}

/// A style with both colors.
pub open spec fn fg_bg(f: Color, b: Color) -> Style {
    Style { fg: Some(f), bg: Some(b), ..plain_style() }
}

/// A style with a foreground color and the given added modifiers.
pub open spec fn fg_with(c: Color, m: Modifier) -> Style {
    Style { fg: Some(c), add_modifier: m, ..plain_style() }
}

/// The styles of the built-in dark theme.
pub open spec fn dark_style(t: ThemeToken) -> Style {
    match t {
        ThemeToken::Primary => fg_only(Color::White),
        ThemeToken::Secondary => fg_only(Color::Gray),
        ThemeToken::Accent => fg_only(Color::Cyan),
        ThemeToken::Error => fg_only(Color::Red),
        ThemeToken::Warning => fg_only(Color::Yellow),
        ThemeToken::Success => fg_only(Color::Green),
        ThemeToken::Info => fg_only(Color::Blue),
        ThemeToken::Background => bg_only(Color::Black),
        ThemeToken::Surface => bg_only(Color::Rgb(30, 30, 30)),
        ThemeToken::Overlay => bg_only(Color::Rgb(40, 40, 40)),
        ThemeToken::Border => fg_only(Color::DarkGray),
        ThemeToken::BorderFocused => fg_only(Color::Cyan),
        ThemeToken::Selection => bg_only(Color::Rgb(50, 50, 80)),
        ThemeToken::Cursor => fg_bg(Color::Black, Color::White),
        ThemeToken::Placeholder => fg_only(Color::DarkGray),
        ThemeToken::StatusBar => fg_bg(Color::White, Color::Rgb(30, 30, 50)),
        ThemeToken::Title => fg_with(Color::White, Modifier(1)),
        ThemeToken::DiffAdd => fg_only(Color::Green),
        ThemeToken::DiffRemove => fg_only(Color::Red),
        ThemeToken::CodeBlock => bg_only(Color::Rgb(25, 25, 25)),
    }
}

/// The styles of the built-in light theme.
pub open spec fn light_style(t: ThemeToken) -> Style {
    match t {
        ThemeToken::Primary => fg_only(Color::Black),
        ThemeToken::Secondary => fg_only(Color::DarkGray),
        ThemeToken::Accent => fg_only(Color::Blue),
        ThemeToken::Error => fg_only(Color::Red),
        ThemeToken::Warning => fg_only(Color::Yellow),
        ThemeToken::Success => fg_only(Color::Green),
        ThemeToken::Info => fg_only(Color::Cyan),
        ThemeToken::Background => bg_only(Color::White),
        ThemeToken::Surface => bg_only(Color::Rgb(240, 240, 240)),
        ThemeToken::Overlay => bg_only(Color::Rgb(230, 230, 230)),
        ThemeToken::Border => fg_only(Color::Gray),
        ThemeToken::BorderFocused => fg_only(Color::Blue),
        ThemeToken::Selection => bg_only(Color::Rgb(180, 210, 255)),
        ThemeToken::Cursor => fg_bg(Color::White, Color::Black),
        ThemeToken::Placeholder => fg_only(Color::Gray),
        ThemeToken::StatusBar => fg_bg(Color::Black, Color::Rgb(230, 230, 240)),
        ThemeToken::Title => fg_with(Color::Black, Modifier(1)),
        ThemeToken::DiffAdd => fg_only(Color::Rgb(0, 100, 0)),
        ThemeToken::DiffRemove => fg_only(Color::Rgb(150, 0, 0)),
        ThemeToken::CodeBlock => bg_only(Color::Rgb(245, 245, 245)),
    }
}

/// A style with a foreground color and the given modifiers added.
fn style_with_modifier(fg: Color, modifier: Modifier) -> (r: Style)
    ensures
        r == fg_with(fg, modifier),
{
    let mut s = Style::new().fg(fg);
    s.add_modifier = modifier;
    s
}

/// Replacing an entry with one for the same token: that token now resolves
/// to the new style (its first entry is the one replaced), and every other
/// token resolves as before.
proof fn lemma_lookup_update(tokens: Seq<(ThemeToken, Style)>, i: int, t: ThemeToken, s: Style)
    requires
        0 <= i < tokens.len(),
        tokens[i].0 == t,
        forall|k: int| 0 <= k < i ==> (#[trigger] tokens[k]).0 != t,
    ensures
        lookup(tokens.update(i, (t, s)), t) == Some(s),
        forall|u: ThemeToken| u != t ==> #[trigger] lookup(tokens.update(i, (t, s)), u) == lookup(tokens, u),
    decreases i,
{
    let nt = tokens.update(i, (t, s));
    if i > 0 {
        assert(nt.drop_first() =~= tokens.drop_first().update(i - 1, (t, s)));
        lemma_lookup_update(tokens.drop_first(), i - 1, t, s);
    } else {
        assert(nt.drop_first() =~= tokens.drop_first());
    }
    assert forall|u: ThemeToken| u != t implies #[trigger] lookup(nt, u) == lookup(tokens, u) by {
        if i == 0 {
            assert(lookup(nt, u) == lookup(nt.drop_first(), u));
            assert(lookup(tokens, u) == lookup(tokens.drop_first(), u));
        } else {
            assert(nt[0] == tokens[0]);
            if tokens[0].0 != u {
                assert(lookup(nt, u) == lookup(nt.drop_first(), u));
                assert(lookup(tokens.drop_first().update(i - 1, (t, s)), u) == lookup(tokens.drop_first(), u));
            }
        }
    }
}

/// Appending an entry for a token that has none: that token resolves to
/// it, every other token as before.
proof fn lemma_lookup_push(tokens: Seq<(ThemeToken, Style)>, t: ThemeToken, s: Style)
    requires
        forall|k: int| 0 <= k < tokens.len() ==> (#[trigger] tokens[k]).0 != t,
    ensures
        lookup(tokens.push((t, s)), t) == Some(s),
        forall|u: ThemeToken| u != t ==> #[trigger] lookup(tokens.push((t, s)), u) == lookup(tokens, u),
    decreases tokens.len(),
{
    let nt = tokens.push((t, s));
    if tokens.len() > 0 {
        assert(nt.drop_first() =~= tokens.drop_first().push((t, s)));
        lemma_lookup_push(tokens.drop_first(), t, s);
        assert(nt[0] == tokens[0]);
    } else {
        assert(nt.drop_first() =~= Seq::<(ThemeToken, Style)>::empty());
    }
    assert forall|u: ThemeToken| u != t implies #[trigger] lookup(nt, u) == lookup(tokens, u) by {
        if tokens.len() > 0 {
            assert(nt[0] == tokens[0]);
            if tokens[0].0 != u {
                assert(lookup(nt, u) == lookup(nt.drop_first(), u));
                assert(lookup(tokens.drop_first().push((t, s)), u) == lookup(tokens.drop_first(), u));
            }
        } else {
            assert(lookup(nt, u) == lookup(nt.drop_first(), u));
        }
    }
}

/// Reading a token right after setting it gives the style set, and setting
/// one token leaves every other token's style alone.
pub proof fn lemma_theme_read_after_write(before: &Theme, after: &Theme, t: ThemeToken, s: Style, u: ThemeToken)
    requires
        lookup(after.entries(), t) == Some(s),
        forall|v: ThemeToken| v != t ==> #[trigger] lookup(after.entries(), v) == lookup(before.entries(), v),
    ensures
        after.style_of(t) == s,
        u != t ==> after.style_of(u) == before.style_of(u),
{
}

} // verus!
