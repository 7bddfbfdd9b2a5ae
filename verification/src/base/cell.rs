//! A single terminal cell.
use vstd::prelude::*;
use crate::base::style::{Color, Modifier, Style, bits_difference, bits_union};
use crate::base::symbol::Symbol;

verus! {

/// A single cell in the terminal buffer.
#[derive(Debug, PartialEq, Eq)]
pub struct Cell {
    /// The grapheme cluster displayed in this cell.
    pub symbol: Symbol,
    /// Foreground color.
    pub fg: Color,
    /// Background color.
    pub bg: Color,
    /// Underline color.
    pub underline_color: Color,
    /// Active text modifiers.
    pub modifier: Modifier,
}

/// `c` with `style` applied: colors the style sets replace the cell's, and
/// the style's removed and added modifiers are applied in that order.
pub open spec fn styled_cell(c: Cell, style: Style) -> Cell {
    Cell {
        symbol: c.symbol,
        fg: match style.fg { Some(f) => f, None => c.fg },
        bg: match style.bg { Some(b) => b, None => c.bg },
        underline_color: match style.underline_color { Some(u) => u, None => c.underline_color },
        modifier: Modifier(
            bits_union(bits_difference(c.modifier.0, style.sub_modifier.0), style.add_modifier.0),
        ),
    }
}

/// Whether `c` is a reset cell: a space with default colors and no modifiers.
pub open spec fn is_reset_cell(c: Cell) -> bool {
    &&& c.symbol@ == seq![' ']
    &&& c.fg == Color::Reset
    &&& c.bg == Color::Reset
    &&& c.underline_color == Color::Reset
    &&& c.modifier.0 == 0
}

/// Two cells that show the same thing.
pub open spec fn same_cell(a: Cell, b: Cell) -> bool {
    &&& a.symbol@ == b.symbol@
    &&& a.fg == b.fg
    &&& a.bg == b.bg
    &&& a.underline_color == b.underline_color
    &&& a.modifier == b.modifier
}

impl Cell {
    /// A reset cell: a space with default colors and no modifiers.
    #[allow(non_snake_case)]
    pub fn EMPTY() -> (r: Self)
        ensures
            is_reset_cell(r),
    {
        Cell {
            symbol: Symbol::SPACE(),
            fg: Color::Reset,
            bg: Color::Reset,
            underline_color: Color::Reset,
            modifier: Modifier(0),
        }
    }

    /// Set the grapheme cluster for this cell.
    pub fn set_symbol(&mut self, symbol: &str) -> (r: &mut Self)
        ensures
            r.symbol@ == symbol@,
            r.fg == old(self).fg && r.bg == old(self).bg,
            r.underline_color == old(self).underline_color && r.modifier == old(self).modifier,
            *final(self) == *final(r),
    {
        self.symbol = Symbol::new(symbol);
        self
    }

    /// Set a single character.
    pub fn set_char(&mut self, ch: char) -> (r: &mut Self)
        ensures
            r.symbol@ == seq![ch],
            r.fg == old(self).fg && r.bg == old(self).bg,
            r.underline_color == old(self).underline_color && r.modifier == old(self).modifier,
            *final(self) == *final(r),
    {
        self.symbol = Symbol::from_char(ch);
        self
    }

    /// The grapheme cluster as a string slice.
    pub fn symbol(&self) -> (r: &str)
        ensures
            r@ == self.symbol@,
    {
        self.symbol.as_str()
    }

    /// Apply `style` to this cell in place.
    pub fn apply_style(&mut self, style: Style)
        ensures
            *final(self) == styled_cell(*old(self), style),
    {
        if let Some(fg) = style.fg {
            self.fg = fg;
        }
        if let Some(bg) = style.bg {
            self.bg = bg;
        }
        if let Some(uc) = style.underline_color {
            self.underline_color = uc;
        }
        self.modifier = self.modifier.difference(style.sub_modifier).union(style.add_modifier);
    }

    /// Apply a style to this cell (merging).
    pub fn set_style(&mut self, style: Style) -> (r: &mut Self)
        ensures
            *r == styled_cell(*old(self), style),
            *final(self) == *final(r),
    {
        self.apply_style(style);
        self
    }

    /// The current style of this cell.
    pub fn style(&self) -> (r: Style)
        ensures
            r == (Style {
                fg: Some(self.fg),
                bg: Some(self.bg),
                underline_color: Some(self.underline_color),
                add_modifier: self.modifier,
                sub_modifier: Modifier(0),
            }),
    {
        Style {
            fg: Some(self.fg),
            bg: Some(self.bg),
            underline_color: Some(self.underline_color),
            add_modifier: self.modifier,
            sub_modifier: Modifier(0),
        }
    }

    /// Reset this cell to empty.
    pub fn reset(&mut self)
        ensures
            is_reset_cell(*final(self)),
    {
        *self = Cell::EMPTY();
    }

    /// Whether this cell has the default empty content (the underline color
    /// is not consulted).
    pub fn is_empty(&self) -> (r: bool)
        ensures
            r == (self.symbol@ == seq![' '] && self.fg == Color::Reset && self.bg == Color::Reset
                && self.modifier.0 == 0),
    {
        let space = Symbol::SPACE();
        self.symbol.same(&space) && self.fg == Color::Reset && self.bg == Color::Reset
            && self.modifier.is_empty()
    }

    /// Whether this cell shows the same thing as `other`.
    pub fn same_as(&self, other: &Cell) -> (r: bool)
        ensures
            r == same_cell(*self, *other),
    {
        self.symbol.same(&other.symbol) && self.fg == other.fg && self.bg == other.bg
            && self.underline_color == other.underline_color && self.modifier == other.modifier
    }
}

impl Clone for Cell {
    fn clone(&self) -> (r: Self)
        ensures
            r == *self,
    {
        Cell {
            symbol: self.symbol.clone(),
            fg: self.fg,
            bg: self.bg,
            underline_color: self.underline_color,
            modifier: self.modifier,
        }
    }
}

impl Default for Cell {
    fn default() -> (r: Cell)
        ensures
            is_reset_cell(r),
    {
        Cell::EMPTY()
    }
}

/// Applying the plain style changes nothing.
pub proof fn lemma_styled_plain(c: Cell)
    ensures
        styled_cell(c, crate::base::style::plain_style()) == c,
{
    let m = c.modifier.0;
    assert(m & !0u16 | 0u16 == m) by (bit_vector);
}

/// Applying two styles to a cell, one after the other, is applying their
/// patch once.
pub proof fn lemma_set_style_twice_is_patch(c: Cell, s1: Style, s2: Style)
    ensures
        styled_cell(styled_cell(c, s1), s2) == styled_cell(c, crate::base::style::patch_style(s1, s2)),
{
    let (m, a1, d1, a2, d2) = (c.modifier.0, s1.add_modifier.0, s1.sub_modifier.0, s2.add_modifier.0, s2.sub_modifier.0);
    assert(((m & !d1) | a1) & !d2 | a2 == (m & !((d1 & !a2) | d2)) | ((a1 & !d2) | a2)) by (bit_vector);
}

} // verus!
