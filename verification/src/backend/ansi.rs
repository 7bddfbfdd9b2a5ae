//! Direct ANSI/SGR escape-sequence encoding into a byte buffer.
use vstd::prelude::*;
use crate::base::style::{Color, Modifier, bits_contain, bits_difference};
use vstd::string::StringSliceAdditionalSpecFns;

verus! {

/// The decimal digits of `v`, most significant first.
pub open spec fn decimal(v: nat) -> Seq<u8>
    decreases v,
{
    if v < 10 {
        seq![(48 + v) as u8]
    } else {
        decimal(v / 10).push((48 + v % 10) as u8)
    }
}

/// `ESC [`, the control sequence introducer.
pub open spec fn csi() -> Seq<u8> {
    seq![0x1bu8, 0x5bu8]
}

/// `CSI n m`: one SGR parameter.
pub open spec fn sgr(code: nat) -> Seq<u8> {
    csi() + decimal(code) + seq![0x6du8]
}

fn push_csi(out: &mut Vec<u8>)
    ensures
        final(out)@ == old(out)@ + csi(),
{
    out.push(0x1b);
    out.push(0x5b);
    assert(final(out)@ =~= old(out)@ + csi());
}

/// Append a decimal integer.
pub fn push_u16(out: &mut Vec<u8>, value: u16)
    ensures
        final(out)@ == old(out)@ + decimal(value as nat),
{
    if value < 10 {
        out.push(48 + value as u8);
        assert(final(out)@ =~= old(out)@ + decimal(value as nat));
        return;
    }
    let mut buf: [u8; 5] = [0u8; 5];
    let mut i: usize = 5;
    let mut v: u16 = value;
    proof {
        reveal_with_fuel(ten_pow, 6);
    }
    while v > 0
        invariant
            i <= 5,
            v > 0 ==> decimal(value as nat) == decimal(v as nat) + buf@.subrange(i as int, 5),
            v == 0 ==> decimal(value as nat) == buf@.subrange(i as int, 5),
            v > 0 ==> (v as int) < crate::backend::ansi::ten_pow(i as nat),
        decreases v,
    {
        i = i - 1;
        let d: u8 = (v % 10) as u8;
        buf.set(i, 48 + d);
        proof {
            assert(buf@.subrange(i as int, 5) =~= seq![(48 + v % 10) as u8] + buf@.subrange(i + 1, 5));
        }
        v = v / 10;
    }
    let tail = &buf[i..5];
    out.extend_from_slice(tail);
}

/// `10` to the power `k`.
pub open spec fn ten_pow(k: nat) -> int
    decreases k,
{
    if k == 0 { 1 } else { 10 * ten_pow((k - 1) as nat) }
}

/// `CSI y+1 ; x+1 H`: the cursor move to the 0-indexed position `(x, y)`.
pub open spec fn move_seq(x: u16, y: u16) -> Seq<u8> {
    csi() + decimal(crate::base::rect::sat_add(y as int, 1) as nat) + seq![0x3bu8]
        + decimal(crate::base::rect::sat_add(x as int, 1) as nat) + seq![0x48u8]
}

/// `CSI y+1 ; x+1 H` — move the cursor to a 0-indexed position.
pub fn move_to(out: &mut Vec<u8>, x: u16, y: u16)
    ensures
        final(out)@ == old(out)@ + move_seq(x, y),
{
    push_csi(out);
    push_u16(out, y.saturating_add(1));
    out.push(0x3b);
    push_u16(out, x.saturating_add(1));
    out.push(0x48);
    assert(final(out)@ =~= old(out)@ + move_seq(x, y));
}

/// SGR base codes `(foreground, background)` of a named color.
pub open spec fn base_codes(color: Color) -> Option<(nat, nat)> {
    match color {
        Color::Black => Some((30, 40)),
        Color::Red => Some((31, 41)),
        Color::Green => Some((32, 42)),
        Color::Yellow => Some((33, 43)),
        Color::Blue => Some((34, 44)),
        Color::Magenta => Some((35, 45)),
        Color::Cyan => Some((36, 46)),
        Color::Gray => Some((37, 47)),
        Color::DarkGray => Some((90, 100)),
        Color::LightRed => Some((91, 101)),
        Color::LightGreen => Some((92, 102)),
        Color::LightYellow => Some((93, 103)),
        Color::LightBlue => Some((94, 104)),
        Color::LightMagenta => Some((95, 105)),
        Color::LightCyan => Some((96, 106)),
        Color::White => Some((97, 107)),
        _ => None,
    }
}

fn base_codes_exec(color: Color) -> (r: Option<(u16, u16)>)
    ensures
        match base_codes(color) {
            Some((f, b)) => r == Some((f as u16, b as u16)),
            None => r is None,
        },
{
    match color {
        Color::Black => Some((30, 40)),
        Color::Red => Some((31, 41)),
        Color::Green => Some((32, 42)),
        Color::Yellow => Some((33, 43)),
        Color::Blue => Some((34, 44)),
        Color::Magenta => Some((35, 45)),
        Color::Cyan => Some((36, 46)),
        Color::Gray => Some((37, 47)),
        Color::DarkGray => Some((90, 100)),
        Color::LightRed => Some((91, 101)),
        Color::LightGreen => Some((92, 102)),
        Color::LightYellow => Some((93, 103)),
        Color::LightBlue => Some((94, 104)),
        Color::LightMagenta => Some((95, 105)),
        Color::LightCyan => Some((96, 106)),
        Color::White => Some((97, 107)),
        _ => None,
    }
}

/// The parameters, after `CSI`, selecting an RGB or indexed color with the
/// given lead-in (`38`, `48` or `58`).
pub open spec fn rgb_params(lead: nat, r: u8, g: u8, b: u8) -> Seq<u8> {
    decimal(lead) + seq![0x3bu8, 0x32u8, 0x3bu8] + decimal(r as nat) + seq![0x3bu8] + decimal(g as nat)
        + seq![0x3bu8] + decimal(b as nat)
}

pub open spec fn indexed_params(lead: nat, i: u8) -> Seq<u8> {
    decimal(lead) + seq![0x3bu8, 0x35u8, 0x3bu8] + decimal(i as nat)
}

/// The SGR sequence selecting `color` for the foreground or background.
pub open spec fn color_seq(color: Color, foreground: bool) -> Seq<u8> {
    let params = match color {
        Color::Reset => decimal(if foreground { 39nat } else { 49nat }),
        Color::Indexed(i) => indexed_params(if foreground { 38nat } else { 48nat }, i),
        Color::Rgb(r, g, b) => rgb_params(if foreground { 38nat } else { 48nat }, r, g, b),
        other => match base_codes(other) {
            Some((f, b)) => decimal(if foreground { f } else { b }),
            None => decimal(if foreground { 39nat } else { 49nat }),
        },
    };
    csi() + params + seq![0x6du8]
}

fn push_lead(out: &mut Vec<u8>, lead: u16, mode: u8)
    requires
        mode == 0x32 || mode == 0x35,
    ensures
        final(out)@ == old(out)@ + decimal(lead as nat) + seq![0x3bu8, mode, 0x3bu8],
{
    push_u16(out, lead);
    out.push(0x3b);
    out.push(mode);
    out.push(0x3b);
    assert(final(out)@ =~= old(out)@ + decimal(lead as nat) + seq![0x3bu8, mode, 0x3bu8]);
}

fn push_rgb(out: &mut Vec<u8>, lead: u16, r: u8, g: u8, b: u8)
    ensures
        final(out)@ == old(out)@ + rgb_params(lead as nat, r, g, b),
{
    push_lead(out, lead, 0x32);
    push_u16(out, r as u16);
    out.push(0x3b);
    push_u16(out, g as u16);
    out.push(0x3b);
    push_u16(out, b as u16);
    assert(final(out)@ =~= old(out)@ + rgb_params(lead as nat, r, g, b));
}

fn push_indexed(out: &mut Vec<u8>, lead: u16, i: u8)
    ensures
        final(out)@ == old(out)@ + indexed_params(lead as nat, i),
{
    push_lead(out, lead, 0x35);
    push_u16(out, i as u16);
    assert(final(out)@ =~= old(out)@ + indexed_params(lead as nat, i));
}

/// Write the SGR sequence selecting `color` for the foreground or background.
pub fn set_color(out: &mut Vec<u8>, color: Color, foreground: bool)
    ensures
        final(out)@ == old(out)@ + color_seq(color, foreground),
{
    push_csi(out);
    let ghost mid = out@;
    match color {
        Color::Reset => push_u16(out, if foreground { 39 } else { 49 }),
        Color::Indexed(i) => push_indexed(out, if foreground { 38 } else { 48 }, i),
        Color::Rgb(r, g, b) => push_rgb(out, if foreground { 38 } else { 48 }, r, g, b),
        other => {
            let (fg, bg) = match base_codes_exec(other) {
                Some(p) => p,
                None => (39, 49),
            };
            push_u16(out, if foreground { fg } else { bg });
        },
    }
    out.push(0x6d);
    assert(final(out)@ =~= old(out)@ + color_seq(color, foreground));
}

/// Palette index for a named color, used where only indexed colors are allowed.
pub open spec fn named_palette_index(color: Color) -> u8 {
    match color {
        Color::Black => 0,
        Color::Red => 1,
        Color::Green => 2,
        Color::Yellow => 3,
        Color::Blue => 4,
        Color::Magenta => 5,
        Color::Cyan => 6,
        Color::Gray => 7,
        Color::DarkGray => 8,
        Color::LightRed => 9,
        Color::LightGreen => 10,
        Color::LightYellow => 11,
        Color::LightBlue => 12,
        Color::LightMagenta => 13,
        Color::LightCyan => 14,
        Color::White => 15,
        _ => 7,
    }
}

fn named_palette_index_exec(color: Color) -> (r: u8)
    ensures
        r == named_palette_index(color),
{
    match color {
        Color::Black => 0,
        Color::Red => 1,
        Color::Green => 2,
        Color::Yellow => 3,
        Color::Blue => 4,
        Color::Magenta => 5,
        Color::Cyan => 6,
        Color::Gray => 7,
        Color::DarkGray => 8,
        Color::LightRed => 9,
        Color::LightGreen => 10,
        Color::LightYellow => 11,
        Color::LightBlue => 12,
        Color::LightMagenta => 13,
        Color::LightCyan => 14,
        Color::White => 15,
        _ => 7,
    }
}

/// The extended SGR sequence selecting an underline color.
pub open spec fn underline_color_seq(color: Color) -> Seq<u8> {
    let params = match color {
        Color::Reset => decimal(59),
        Color::Indexed(i) => indexed_params(58, i),
        Color::Rgb(r, g, b) => rgb_params(58, r, g, b),
        other => indexed_params(58, named_palette_index(other)),
    };
    csi() + params + seq![0x6du8]
}

/// Write the extended SGR sequence selecting an underline color (`58;…`).
pub fn set_underline_color(out: &mut Vec<u8>, color: Color)
    ensures
        final(out)@ == old(out)@ + underline_color_seq(color),
{
    push_csi(out);
    match color {
        Color::Reset => push_u16(out, 59),
        Color::Indexed(i) => push_indexed(out, 58, i),
        Color::Rgb(r, g, b) => push_rgb(out, 58, r, g, b),
        other => push_indexed(out, 58, named_palette_index_exec(other)),
    }
    out.push(0x6d);
    assert(final(out)@ =~= old(out)@ + underline_color_seq(color));
}

/// `OSC 8 ; ;`, which opens or (with nothing after it) closes a hyperlink.
pub open spec fn osc8() -> Seq<u8> {
    seq![0x1bu8, 0x5du8, 0x38u8, 0x3bu8, 0x3bu8]
}

/// `ESC \`, the string terminator.
pub open spec fn st() -> Seq<u8> {
    seq![0x1bu8, 0x5cu8]
}

/// The bytes of `s` without control characters.
pub open spec fn printable_bytes(s: Seq<u8>) -> Seq<u8>
    decreases s.len(),
{
    if s.len() == 0 {
        s
    } else {
        let b = s.last();
        printable_bytes(s.drop_last()) + if b >= 0x20 && b != 0x7f { seq![b] } else { Seq::<u8>::empty() }
    }
}

/// `OSC 8 ; ; URL ST` — open a hyperlink that covers the following cells;
/// control characters in the URL are dropped so the sequence stays intact.
pub fn open_hyperlink(out: &mut Vec<u8>, url: &str)
    ensures
        final(out)@ == old(out)@ + osc8() + printable_bytes(url.spec_bytes()) + st(),
{
    out.push(0x1b);
    out.push(0x5d);
    out.push(0x38);
    out.push(0x3b);
    out.push(0x3b);
    let ghost start = out@;
    let bytes = url.as_bytes();
    let mut i: usize = 0;
    while i < bytes.len()
        invariant
            i <= bytes@.len(),
            bytes@ == url.spec_bytes(),
            out@ == start + printable_bytes(bytes@.take(i as int)),
        decreases bytes@.len() - i,
    {
        let b = bytes[i];
        proof {
            assert(bytes@.take(i + 1).drop_last() =~= bytes@.take(i as int));
        }
        if b >= 0x20 && b != 0x7f {
            out.push(b);
        }
        assert(out@ =~= start + printable_bytes(bytes@.take(i + 1)));
        i = i + 1;
    }
    assert(bytes@.take(bytes@.len() as int) =~= bytes@);
    out.push(0x1b);
    out.push(0x5c);
    assert(final(out)@ =~= old(out)@ + osc8() + printable_bytes(url.spec_bytes()) + st());
}

/// `OSC 8 ; ; ST` — close the currently open hyperlink.
pub fn close_hyperlink(out: &mut Vec<u8>)
    ensures
        final(out)@ == old(out)@ + osc8() + st(),
{
    out.push(0x1b);
    out.push(0x5d);
    out.push(0x38);
    out.push(0x3b);
    out.push(0x3b);
    out.push(0x1b);
    out.push(0x5c);
    assert(final(out)@ =~= old(out)@ + osc8() + st());
}

/// `CSI 0 m` — reset all attributes and colors.
pub fn reset_attributes(out: &mut Vec<u8>)
    ensures
        final(out)@ == old(out)@ + sgr(0),
{
    push_csi(out);
    out.push(0x30);
    out.push(0x6d);
    assert(final(out)@ =~= old(out)@ + sgr(0));
}

/// The modifiers that have an SGR "on" code, in emission order, with that code.
pub open spec fn on_entry(i: int) -> (u16, nat) {
    if i == 0 { (1, 1) } else if i == 1 { (2, 2) } else if i == 2 { (4, 3) } else if i == 3 { (8, 4) }
    else if i == 4 { (16, 5) } else if i == 5 { (32, 6) } else if i == 6 { (64, 7) } else if i == 7 { (128, 8) }
    else if i == 8 { (256, 9) } else if i == 9 { (512, 21) } else if i == 10 { (8192, 53) }
    else if i == 11 { (16384, 73) } else { (32768, 74) }
}

/// The modifiers that can be switched off individually, with their "off"
/// code; bold and dim share 22, the underlines 24, the blinks 25 and the
/// script positions 75.
pub open spec fn off_entry(i: int) -> (u16, nat) {
    if i == 0 { (1, 22) } else if i == 1 { (2, 22) } else if i == 2 { (4, 23) } else if i == 3 { (8, 24) }
    else if i == 4 { (512, 24) } else if i == 5 { (16, 25) } else if i == 6 { (32, 25) } else if i == 7 { (64, 27) }
    else if i == 8 { (128, 28) } else if i == 9 { (256, 29) } else if i == 10 { (8192, 55) }
    else if i == 11 { (16384, 75) } else { (32768, 75) }
}

fn on_entry_exec(i: usize) -> (r: (u16, u16))
    requires
        i < 13,
    ensures
        r.0 == on_entry(i as int).0 && r.1 == on_entry(i as int).1,
{
    match i {
        0 => (1, 1), 1 => (2, 2), 2 => (4, 3), 3 => (8, 4), 4 => (16, 5), 5 => (32, 6), 6 => (64, 7),
        7 => (128, 8), 8 => (256, 9), 9 => (512, 21), 10 => (8192, 53), 11 => (16384, 73), _ => (32768, 74),
    }
}

fn off_entry_exec(i: usize) -> (r: (u16, u8))
    requires
        i < 13,
    ensures
        r.0 == off_entry(i as int).0 && r.1 == off_entry(i as int).1,
{
    match i {
        0 => (1, 22), 1 => (2, 22), 2 => (4, 23), 3 => (8, 24), 4 => (512, 24), 5 => (16, 25), 6 => (32, 25),
        7 => (64, 27), 8 => (128, 28), 9 => (256, 29), 10 => (8192, 55), 11 => (16384, 75), _ => (32768, 75),
    }
}

/// The "on" codes of the modifiers in `m` among the first `k` table entries.
pub open spec fn on_codes(m: u16, k: int) -> Seq<u8>
    decreases k,
{
    if k <= 0 {
        Seq::empty()
    } else {
        on_codes(m, k - 1) + if bits_contain(m, on_entry(k - 1).0) { sgr(on_entry(k - 1).1) } else { Seq::empty() }
    }
}

/// `CSI 4 : n m`, the extended underline style `n`.
pub open spec fn underline_style_seq(n: u8) -> Seq<u8> {
    csi() + seq![0x34u8, 0x3au8, n, 0x6du8]
}

/// The sequence for the first of the curly, dotted and dashed underline
/// styles that `m` holds, if any.
pub open spec fn underline_style_part(m: u16) -> Seq<u8> {
    if bits_contain(m, 1024) {
        underline_style_seq(0x33)
    } else if bits_contain(m, 2048) {
        underline_style_seq(0x34)
    } else if bits_contain(m, 4096) {
        underline_style_seq(0x35)
    } else {
        Seq::empty()
    }
}

/// The SGR codes turning on every modifier in `m`.
pub open spec fn modifiers_seq(m: u16) -> Seq<u8> {
    if m == 0 { Seq::empty() } else { on_codes(m, 13) + underline_style_part(m) }
}

fn push_sgr(out: &mut Vec<u8>, code: u16)
    ensures
        final(out)@ == old(out)@ + sgr(code as nat),
{
    push_csi(out);
    push_u16(out, code);
    out.push(0x6d);
    assert(final(out)@ =~= old(out)@ + sgr(code as nat));
}

/// Write the SGR codes turning on every modifier in `modifier`.
pub fn set_modifiers(out: &mut Vec<u8>, modifier: Modifier)
    ensures
        final(out)@ == old(out)@ + modifiers_seq(modifier.0),
{
    if modifier.is_empty() {
        assert(final(out)@ =~= old(out)@ + modifiers_seq(modifier.0));
        return;
    }
    let ghost start = out@;
    let mut i: usize = 0;
    while i < 13
        invariant
            i <= 13,
            out@ == start + on_codes(modifier.0, i as int),
        decreases 13 - i,
    {
        let (flag, code) = on_entry_exec(i);
        if modifier.contains(Modifier(flag)) {
            push_sgr(out, code);
        }
        assert(out@ =~= start + on_codes(modifier.0, i + 1));
        i = i + 1;
    }
    let ghost mid = out@;
    if modifier.contains(Modifier(1024)) {
        push_csi(out);
        out.push(0x34); out.push(0x3a); out.push(0x33); out.push(0x6d);
    } else if modifier.contains(Modifier(2048)) {
        push_csi(out);
        out.push(0x34); out.push(0x3a); out.push(0x34); out.push(0x6d);
    } else if modifier.contains(Modifier(4096)) {
        push_csi(out);
        out.push(0x34); out.push(0x3a); out.push(0x35); out.push(0x6d);
    }
    assert(final(out)@ =~= old(out)@ + modifiers_seq(modifier.0));
}

/// The distinct "off" codes emitted for the flags in `removed` among the
/// first `k` table entries, in emission order.
pub open spec fn off_emitted(removed: u16, k: int) -> Seq<u8>
    decreases k,
{
    if k <= 0 {
        Seq::empty()
    } else {
        let prev = off_emitted(removed, k - 1);
        let (flag, code) = off_entry(k - 1);
        if bits_contain(removed, flag) && !prev.contains(code as u8) { prev.push(code as u8) } else { prev }
    }
}

/// The bytes switching those flags off.
pub open spec fn off_bytes(removed: u16, k: int) -> Seq<u8>
    decreases k,
{
    if k <= 0 {
        Seq::empty()
    } else {
        let (flag, code) = off_entry(k - 1);
        off_bytes(removed, k - 1) + if bits_contain(removed, flag) && !off_emitted(removed, k - 1).contains(code as u8) {
            sgr(code)
        } else {
            Seq::empty()
        }
    }
}

/// The bytes turning back on the flags of `to` whose shared "off" code was
/// emitted, among the first `k` table entries.
pub open spec fn reassert_bytes(to: u16, emitted: Seq<u8>, k: int) -> Seq<u8>
    decreases k,
{
    if k <= 0 {
        Seq::empty()
    } else {
        let (flag, code) = off_entry(k - 1);
        reassert_bytes(to, emitted, k - 1) + if bits_contain(to, flag) && emitted.contains(code as u8) {
            modifiers_seq(flag)
        } else {
            Seq::empty()
        }
    }
}

/// The minimal SGR sequence moving from the modifiers `from` to `to`.
pub open spec fn modifier_diff_seq(from: u16, to: u16) -> Seq<u8> {
    if from == to {
        Seq::empty()
    } else {
        let removed = bits_difference(from, to);
        let added = bits_difference(to, from);
        let off_part = if removed != 0 {
            let em = off_emitted(removed, 13);
            off_bytes(removed, 13) + reassert_bytes(to, em, 13) + if bits_contain(removed, 1024)
                || bits_contain(removed, 2048) || bits_contain(removed, 4096) {
                sgr(24)
            } else {
                Seq::empty()
            }
        } else {
            Seq::empty()
        };
        off_part + modifiers_seq(added)
    }
}

fn codes_contain(v: &Vec<u8>, x: u8) -> (r: bool)
    ensures
        r == v@.contains(x),
{
    let mut i: usize = 0;
    while i < v.len()
        invariant
            i <= v@.len(),
            forall|j: int| 0 <= j < i ==> v@[j] != x,
        decreases v@.len() - i,
    {
        if v[i] == x {
            return true;
        }
        i = i + 1;
    }
    false
}

/// Write the minimal SGR sequence moving from `from` to `to`: only the flags
/// that changed are emitted, and a flag cleared by a shared "off" code is
/// turned back on.
pub fn diff_modifiers(out: &mut Vec<u8>, from: Modifier, to: Modifier)
    ensures
        final(out)@ == old(out)@ + modifier_diff_seq(from.0, to.0),
{
    if from == to {
        assert(final(out)@ =~= old(out)@ + modifier_diff_seq(from.0, to.0));
        return;
    }
    let removed = from.difference(to);
    let added = to.difference(from);
    let ghost start = out@;
    if !removed.is_empty() {
        let mut emitted: Vec<u8> = Vec::new();
        let mut i: usize = 0;
        while i < 13
            invariant
                i <= 13,
                emitted@ == off_emitted(removed.0, i as int),
                out@ == start + off_bytes(removed.0, i as int),
            decreases 13 - i,
        {
            let (flag, code) = off_entry_exec(i);
            if removed.contains(Modifier(flag)) && !codes_contain(&emitted, code) {
                emitted.push(code);
                push_sgr(out, code as u16);
            }
            assert(out@ =~= start + off_bytes(removed.0, i + 1));
            i = i + 1;
        }
        let ghost mid = out@;
        let mut i: usize = 0;
        while i < 13
            invariant
                i <= 13,
                emitted@ == off_emitted(removed.0, 13),
                out@ == mid + reassert_bytes(to.0, emitted@, i as int),
            decreases 13 - i,
        {
            let (flag, code) = off_entry_exec(i);
            if to.contains(Modifier(flag)) && codes_contain(&emitted, code) {
                set_modifiers(out, Modifier(flag));
            }
            assert(out@ =~= mid + reassert_bytes(to.0, emitted@, i + 1));
            i = i + 1;
        }
        if removed.contains(Modifier(1024)) || removed.contains(Modifier(2048)) || removed.contains(Modifier(4096)) {
            push_sgr(out, 24);
        }
    }
    set_modifiers(out, added);
    assert(final(out)@ =~= old(out)@ + modifier_diff_seq(from.0, to.0));
}

/// Whether a color is one of the sixteen named ones.
pub open spec fn is_named(c: Color) -> bool {
    !(c is Reset || c is Indexed || c is Rgb)
}

/// The SGR codes of the named colors follow the ANSI table: in palette
/// order, the eight normal colors take foreground codes 30 to 37 and the
/// eight bright ones 90 to 97, and each background code is ten more than
/// its foreground code. So no two named colors share a code, and the
/// sequence written for a named color selects exactly that code.
pub proof fn lemma_named_color_codes(c: Color, d: Color)
    ensures
        is_named(c) <==> base_codes(c) is Some,
        is_named(c) ==> named_palette_index(c) < 16,
        is_named(c) ==> ({
            let k = named_palette_index(c) as nat;
            let f: nat = if k < 8 { 30 + k } else { 82 + k };
            &&& base_codes(c) == Some((f, f + 10))
            &&& color_seq(c, true) == csi() + decimal(f) + seq![0x6du8]
            &&& color_seq(c, false) == csi() + decimal(f + 10) + seq![0x6du8]
        }),
        is_named(c) && is_named(d) && c != d ==> ({
            let (fc, bc) = base_codes(c).unwrap();
            let (fd, bd) = base_codes(d).unwrap();
            fc != fd && bc != bd
        }),
{
}

} // verus!
