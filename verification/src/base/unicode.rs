//! Display widths and grapheme clusters.
//!
//! The Unicode tables themselves come from `unicode-width` and
//! `unicode-segmentation`; what this module adds is the cell-width rule the
//! buffer uses for one grapheme, and the conservative table of characters that
//! always form a grapheme cluster on their own.
use vstd::prelude::*;
use unicode_segmentation::UnicodeSegmentation;
use unicode_width::{UnicodeWidthChar, UnicodeWidthStr};
use crate::base::chars::str_to_chars;

verus! {

/// Column width of one character according to the Unicode width tables
/// (`None` for a control character).
pub uninterp spec fn unicode_char_width(c: char) -> Option<usize>;

/// Column width of a string according to the Unicode width tables.
pub uninterp spec fn unicode_str_width(s: Seq<char>) -> usize;

/// The extended grapheme clusters of a string, in order.
pub uninterp spec fn grapheme_clusters(s: Seq<char>) -> Seq<Seq<char>>;

/// The concatenation of a sequence of strings.
pub open spec fn concat(gs: Seq<Seq<char>>) -> Seq<char>
    decreases gs.len(),
{
    if gs.len() == 0 {
        Seq::empty()
    } else {
        gs[0] + concat(gs.drop_first())
    }
}

/// A printable ASCII character: one byte, one cell.
pub open spec fn is_printable_ascii(c: char) -> bool {
    0x20 <= (c as u32) < 0x7f
}

/// `UnicodeWidthChar::width`.
///
/// The result is the table lookup, named `unicode_char_width`; the source
/// answers printable ASCII with one column and the C0 and C1 control
/// characters with `None` before consulting any table, and that much is
/// stated here.
#[verifier::external_body]
pub(crate) fn char_width(c: char) -> (r: Option<usize>)
    ensures
        r == unicode_char_width(c),
        is_printable_ascii(c) ==> r == Some(1usize),
        ((c as u32) < 0x20 || 0x7f <= (c as u32) < 0xa0) ==> r is None,
{
    UnicodeWidthChar::width(c)
}

/// `UnicodeWidthStr::width`.
///
/// The result is the table-driven width, named `unicode_str_width`; the
/// empty string has width zero.
#[verifier::external_body]
pub(crate) fn str_width(s: &str) -> (r: usize)
    ensures
        r == unicode_str_width(s@),
        s@.len() == 0 ==> r == 0,
{
    UnicodeWidthStr::width(s)
}

/// `UnicodeSegmentation::graphemes(s, true)`, collected.
///
/// The clusters are named `grapheme_clusters`. The iterator yields
/// consecutive slices of `s` from its start to its end, each advancing the
/// cursor by at least one character, so the clusters are non-empty and
/// concatenate back to `s`; which boundaries it picks is left to the name.
#[verifier::external_body]
pub(crate) fn graphemes(s: &str) -> (r: Vec<String>)
    ensures
        r@.len() == grapheme_clusters(s@).len(),
        forall|i: int| 0 <= i < r@.len() ==> #[trigger] r@[i]@ == grapheme_clusters(s@)[i],
        forall|i: int| 0 <= i < r@.len() ==> #[trigger] r@[i]@.len() > 0,
        concat(r@.map_values(|g: String| g@)) == s@,
{
    UnicodeSegmentation::graphemes(s, true).map(|g: &str| g.to_string()).collect()
}

/// The cell width of one grapheme cluster: printable ASCII is one column, a
/// single character takes its table width (zero for a control character),
/// and a longer cluster its string width, each cut to `u16`.
pub open spec fn grapheme_width_spec(g: Seq<char>) -> u16 {
    if g.len() == 1 && is_printable_ascii(g[0]) {
        1
    } else if g.len() == 1 {
        match unicode_char_width(g[0]) {
            Some(w) => w as u16,
            None => 0,
        }
    } else {
        unicode_str_width(g) as u16
    }
}

/// Display width of a grapheme cluster.
pub fn grapheme_width(g: &str) -> (r: u16)
    ensures
        r == grapheme_width_spec(g@),
{
    let cs = str_to_chars(g);
    if cs.len() == 1 {
        let c = cs[0];
        let u = c as u32;
        if 0x20 <= u && u < 0x7f {
            return 1;
        }
        return match char_width(c) {
            Some(w) => w as u16,
            None => 0,
        };
    }
    str_width(g) as u16
}

/// Column width of `c` if it is always a grapheme cluster by itself, given
/// that the character after it is too.
///
/// The ranges exclude every block that holds combining marks, joiners,
/// variation selectors, conjoining jamo or emoji modifiers. Blocks of uniform
/// width answer from the range; the arrows-to-misc-symbols block mixes widths
/// and asks the width table.
pub open spec fn standalone_width_spec(c: char) -> Option<u16> {
    let u = c as u32;
    if (0x20 <= u <= 0x7e) || (0xa1 <= u <= 0x2ff) || (0x370 <= u <= 0x482) || (0x2010 <= u
        <= 0x2027) || (0x2030 <= u <= 0x205e) || (0x2070 <= u <= 0x209f) {
        Some(1)
    } else if 0x2190 <= u <= 0x2bff {
        match unicode_char_width(c) {
            Some(w) => Some(w as u16),
            None => None,
        }
    } else if (0x3001 <= u <= 0x3029) || (0x303b <= u <= 0x303e) {
        Some(2)
    } else if u == 0x303f {
        Some(1)
    } else if (0x3041 <= u <= 0x3096) || (0x309b <= u <= 0x30ff) || (0x3400 <= u <= 0x4dbf) || (
    0x4e00 <= u <= 0x9fff) || (0xf900 <= u <= 0xfaff) || (0xac00 <= u <= 0xd7a3) || (0xff01 <= u
        <= 0xff60) {
        Some(2)
    } else {
        None
    }
}

/// Column width of `c` if it always stands alone as a grapheme cluster.
pub fn standalone_width(c: char) -> (r: Option<u16>)
    ensures
        r == standalone_width_spec(c),
{
    let u = c as u32;
    if (0x20 <= u && u <= 0x7e) || (0xa1 <= u && u <= 0x2ff) || (0x370 <= u && u <= 0x482) || (
    0x2010 <= u && u <= 0x2027) || (0x2030 <= u && u <= 0x205e) || (0x2070 <= u && u <= 0x209f) {
        Some(1)
    } else if 0x2190 <= u && u <= 0x2bff {
        match char_width(c) {
            Some(w) => Some(w as u16),
            None => None,
        }
    } else if (0x3001 <= u && u <= 0x3029) || (0x303b <= u && u <= 0x303e) {
        Some(2)
    } else if u == 0x303f {
        Some(1)
    } else if (0x3041 <= u && u <= 0x3096) || (0x309b <= u && u <= 0x30ff) || (0x3400 <= u && u
        <= 0x4dbf) || (0x4e00 <= u && u <= 0x9fff) || (0xf900 <= u && u <= 0xfaff) || (0xac00 <= u
        && u <= 0xd7a3) || (0xff01 <= u && u <= 0xff60) {
        Some(2)
    } else {
        None
    }
}

/// Whether `c` is always a grapheme cluster by itself, given that the
/// character after it is also one of these.
pub open spec fn is_standalone(c: char) -> bool {
    standalone_width_spec(c) is Some
}

/// Whether `s` begins with a character the scalar fast path can take: a
/// standalone character followed by the end or by another standalone one.
pub open spec fn scalar_run_starts(s: Seq<char>) -> bool {
    s.len() > 0 && is_standalone(s[0]) && (s.len() == 1 || is_standalone(s[1]))
}

} // verus!
