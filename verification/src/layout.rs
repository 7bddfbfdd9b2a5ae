//! Constraint-based space allocation.
use vstd::prelude::*;
use crate::base::rect::{Margin, Rect, sat_add, sat_sub, min_int, max_int};

verus! {

/// Layouting direction.
#[derive(Debug, Clone, Copy, PartialEq, Eq, Hash, Default, Structural)]
pub enum Direction {
    #[default]
    Vertical,
    Horizontal,
}

/// Size constraint for layout segments.
#[derive(Debug, Clone, Copy, PartialEq, Eq, Structural)]
pub enum Constraint {
    /// Fixed length in cells.
    Length(u16),
    /// Percentage of available space (0-100).
    Percentage(u16),
    /// Minimum size.
    Min(u16),
    /// Maximum size.
    Max(u16),
    /// Ratio of available space (numerator/denominator).
    Ratio(u32, u32),
    /// Fill remaining space proportionally (weight relative to other fills).
    Fill(u16),
}

/// How to distribute excess space after constraints are satisfied.
#[derive(Debug, Clone, Copy, PartialEq, Eq, Hash, Default, Structural)]
pub enum Flex {
    /// Pack segments at the start.
    #[default]
    Start,
    /// Center segments.
    Center,
    /// Pack segments at the end.
    End,
    /// Excess space becomes equal gaps between segments; the outer edges stay
    /// flush.
    SpaceBetween,
    /// Every segment is wrapped in an equal half-gap.
    SpaceAround,
    /// Gaps between segments and at both edges are all equal.
    SpaceEvenly,
}

/// The sum of a sequence of integers.
pub open spec fn sum(s: Seq<int>) -> int
    decreases s.len(),
{
    if s.len() == 0 { 0 } else { sum(s.drop_last()) + s.last() }
}

/// The size a constraint asks for before any space is shared out.
pub open spec fn base_size(c: Constraint, avail: int) -> int {
    match c {
        Constraint::Length(l) => min_int(l as int, avail),
        Constraint::Percentage(p) => (avail * p / 100int) % 65536,
        Constraint::Min(m) => m as int,
        Constraint::Max(m) => min_int(m as int, avail),
        Constraint::Ratio(num, den) => if den == 0 { 0 } else { (avail * num / (den as int)) % 65536 },
        Constraint::Fill(_) => 0,
    }
}

pub open spec fn fill_weight(c: Constraint) -> int {
    match c {
        Constraint::Fill(w) => w as int,
        _ => 0,
    }
}

pub open spec fn is_fill(c: Constraint) -> bool {
    c is Fill
}

pub open spec fn is_min(c: Constraint) -> bool {
    c is Min
}

/// Sum of the fill weights.
pub open spec fn fill_total(cs: Seq<Constraint>) -> int
    decreases cs.len(),
{
    if cs.len() == 0 { 0 } else { fill_total(cs.drop_last()) + fill_weight(cs.last()) }
}

/// Number of `Fill` constraints.
pub open spec fn fill_count(cs: Seq<Constraint>) -> int
    decreases cs.len(),
{
    if cs.len() == 0 { 0 } else { fill_count(cs.drop_last()) + if is_fill(cs.last()) { 1int } else { 0int } }
}

/// Number of `Min` constraints.
pub open spec fn min_count(cs: Seq<Constraint>) -> int
    decreases cs.len(),
{
    if cs.len() == 0 { 0 } else { min_count(cs.drop_last()) + if is_min(cs.last()) { 1int } else { 0int } }
}

/// The proportional share of `rem` for each fill, before the last fill takes
/// what is left.
pub open spec fn plain_share(c: Constraint, rem: int, total: int) -> int {
    if is_fill(c) { rem * fill_weight(c) / total } else { 0 }
}

pub open spec fn plain_shares(cs: Seq<Constraint>, rem: int, total: int) -> int
    decreases cs.len(),
{
    if cs.len() == 0 { 0 } else { plain_shares(cs.drop_last(), rem, total) + plain_share(cs.last(), rem, total) }
}

/// The size the fill at index `i` receives.
pub open spec fn fill_share(cs: Seq<Constraint>, rem: int, total: int, i: int) -> int {
    if fill_count(cs.take(i + 1)) == fill_count(cs) {
        rem - plain_shares(cs.take(i), rem, total)
    } else {
        rem * fill_weight(cs[i]) / total
    }
}

/// Phase one: the size each constraint asks for.
pub open spec fn phase_base(cs: Seq<Constraint>, avail: int) -> Seq<int> {
    cs.map_values(|c: Constraint| base_size(c, avail))
}

/// Phase two: the space not claimed by phase one is shared among the fills
/// in proportion to their weights.
pub open spec fn phase_fill(cs: Seq<Constraint>, base: Seq<int>, avail: int) -> Seq<int> {
    let rem = sat_sub(avail, sum(base));
    let total = fill_total(cs);
    if total > 0 && rem > 0 {
        Seq::new(cs.len(), |i: int| if is_fill(cs[i]) { fill_share(cs, rem, total, i) } else { base[i] })
    } else {
        base
    }
}

/// The extra space the `Min` constraint at index `i` receives out of `left`.
pub open spec fn min_extra(cs: Seq<Constraint>, left: int, i: int) -> int {
    let share = left / min_count(cs);
    if min_count(cs.take(i + 1)) == min_count(cs) {
        left - share * (min_count(cs) - 1)
    } else {
        share
    }
}

/// Phase two, continued: space still unclaimed is shared evenly among the
/// `Min` constraints, the last one taking the rounding remainder.
pub open spec fn phase_min(cs: Seq<Constraint>, s: Seq<int>, avail: int) -> Seq<int> {
    let left = sat_sub(avail, sum(s));
    if min_count(cs) > 0 && left > 0 {
        Seq::new(cs.len(), |i: int| if is_min(cs[i]) { s[i] + min_extra(cs, left, i) } else { s[i] })
    } else {
        s
    }
}

/// Phase three: `Min` and `Max` bounds are enforced.
pub open spec fn phase_clamp(cs: Seq<Constraint>, s: Seq<int>) -> Seq<int> {
    Seq::new(cs.len(), |i: int| match cs[i] {
        Constraint::Min(m) => max_int(s[i], m as int),
        Constraint::Max(m) => min_int(s[i], m as int),
        _ => s[i],
    })
}

/// `2` to the power `k`.
pub open spec fn two_pow(k: nat) -> int
    decreases k,
{
    if k == 0 { 1 } else { 2 * two_pow((k - 1) as nat) }
}

/// `num / den` rounded to the nearest integer, ties to the even one.
pub open spec fn round_half_even(num: int, den: int) -> int {
    let q = num / den;
    let r = num % den;
    if 2 * r > den || (2 * r == den && q % 2 == 1) { q + 1 } else { q }
}

/// The first `k` from `k` up for which `a * 2^k >= t * 2^52`: the scaling
/// that puts the quotient `a / t` in `[2^52, 2^53)`.
pub open spec fn norm_exp(a: int, t: int, k: nat) -> nat
    decreases 70 - k,
{
    if k >= 70 || a * two_pow(k) >= t * two_pow(52) { k } else { norm_exp(a, t, (k + 1) as nat) }
}

/// The first `d` from `d` up for which `p < 2^(53 + d)`.
pub open spec fn prod_exp(p: int, d: nat) -> nat
    decreases 30 - d,
{
    if d >= 30 || p < two_pow((53 + d) as nat) { d } else { prod_exp(p, (d + 1) as nat) }
}

/// `(s as f64 * (a as f64 / t as f64)) as u16` for `a < t`: the quotient and
/// the product are each rounded to 53 significant bits, ties to even, and the
/// result is truncated and saturated as the cast does.
pub open spec fn float_scaled(s: int, a: int, t: int) -> int {
    if a == 0 {
        0
    } else {
        let k = norm_exp(a, t, 0);
        let m = round_half_even(a * two_pow(k), t);
        let p = s * m;
        let d = prod_exp(p, 0);
        let rounded = round_half_even(p, two_pow(d)) * two_pow(d);
        min_int(rounded / two_pow(k), 65535)
    }
}

/// Phase four: when the sizes exceed the available space, every segment but
/// the last is scaled by `avail / total` in double precision, and the last
/// one takes what remains.
pub open spec fn shrunk_prefix(s: Seq<int>, avail: int, total: int, i: int) -> int
    decreases i,
{
    if i <= 0 { 0 } else { shrunk_prefix(s, avail, total, i - 1) + float_scaled(s[i - 1], avail, total) }
}

pub open spec fn phase_shrink(s: Seq<int>, avail: int) -> Seq<int> {
    let total = sum(s);
    if total > avail {
        Seq::new(s.len(), |i: int| if i == s.len() - 1 {
            avail - shrunk_prefix(s, avail, total, i)
        } else {
            float_scaled(s[i], avail, total)
        })
    } else {
        s
    }
}

/// `(start_offset, gap_base, gap_extra)`: where the first segment starts,
/// the gap after every segment but the last, and how many leading gaps get
/// one more cell.
pub open spec fn flex_params(flex: Flex, excess: int, n: int) -> (int, int, int) {
    match flex {
        Flex::Start => (0, 0, 0),
        Flex::Center => (excess / 2, 0, 0),
        Flex::End => (excess, 0, 0),
        Flex::SpaceBetween => if n - 1 == 0 { (0, 0, 0) } else { (0, excess / (n - 1), excess % (n - 1)) },
        Flex::SpaceAround => {
            let half = excess / (2 * n);
            (half, 2 * half, 0)
        },
        Flex::SpaceEvenly => {
            let unit = excess / (n + 1);
            (unit, unit, 0)
        },
    }
}

/// Where the segment after segment `i` starts, given that segment `i`
/// starts at `pos`.
pub open spec fn next_pos(pos: int, size: int, i: int, n: int, spacing: int, base: int, extra: int) -> int {
    let p1 = sat_add(pos, size);
    if i < n - 1 {
        let p2 = max_int(p1 + spacing, 0) % 65536;
        sat_add(p2, base + if i < extra { 1int } else { 0int })
    } else {
        p1
    }
}

/// Where segment `i` starts.
pub open spec fn seg_pos(start: int, s: Seq<int>, spacing: int, base: int, extra: int, i: int) -> int
    decreases i,
{
    if i <= 0 {
        start
    } else {
        next_pos(seg_pos(start, s, spacing, base, extra, i - 1), s[i - 1], i - 1, s.len() as int, spacing, base, extra)
    }
}

/// The `u16` values of `s` as integers.
pub open spec fn ints(s: Seq<u16>) -> Seq<int> {
    s.map_values(|v: u16| v as int)
}

pub proof fn lemma_sum_take_step(s: Seq<int>, i: int)
    requires
        0 <= i < s.len(),
    ensures
        sum(s.take(i + 1)) == sum(s.take(i)) + s[i],
{
    assert(s.take(i + 1).drop_last() =~= s.take(i));
}

pub proof fn lemma_sum_take_all(s: Seq<int>)
    ensures
        sum(s.take(s.len() as int)) == sum(s),
{
    assert(s.take(s.len() as int) =~= s);
}

/// The sum of the `u16` values `s`, which must fit in a `u16`.
fn sum_u16(s: &Vec<u16>) -> (r: u16)
    requires
        sum(ints(s@)) <= 65535,
        forall|i: int| 0 <= i < s@.len() ==> 0 <= #[trigger] s@[i],
    ensures
        r == sum(ints(s@)),
{
    let ghost v = ints(s@);
    let mut acc: u16 = 0;
    let mut i: usize = 0;
    while i < s.len()
        invariant
            v == ints(s@),
            i <= s@.len(),
            acc == sum(v.take(i as int)),
            sum(v) <= 65535,
        decreases s@.len() - i,
    {
        proof {
            lemma_sum_take_step(v, i as int);
            lemma_sum_prefix_le(v, (i + 1) as int);
        }
        acc = acc + s[i];
        i = i + 1;
    }
    proof { lemma_sum_take_all(v); }
    acc
}

/// A prefix of non-negative numbers sums to no more than the whole.
pub proof fn lemma_sum_prefix_le(s: Seq<int>, i: int)
    requires
        0 <= i <= s.len(),
        forall|j: int| 0 <= j < s.len() ==> s[j] >= 0,
    ensures
        0 <= sum(s.take(i)) <= sum(s),
    decreases s.len() - i,
{
    if i == s.len() {
        lemma_sum_take_all(s);
        lemma_sum_nonneg(s);
    } else {
        lemma_sum_prefix_le(s, i + 1);
        lemma_sum_take_step(s, i);
        lemma_sum_nonneg(s.take(i));
    }
}

pub proof fn lemma_sum_nonneg(s: Seq<int>)
    requires
        forall|j: int| 0 <= j < s.len() ==> s[j] >= 0,
    ensures
        sum(s) >= 0,
    decreases s.len(),
{
    if s.len() > 0 {
        lemma_sum_nonneg(s.drop_last());
    }
}

/// The sizes after every phase of the solver.
pub open spec fn plan_sizes(cs: Seq<Constraint>, avail: int) -> Seq<int> {
    let s1 = phase_base(cs, avail);
    let s2 = phase_fill(cs, s1, avail);
    let s3 = phase_min(cs, s2, avail);
    let s4 = phase_clamp(cs, s3);
    phase_shrink(s4, avail)
}

/// Layout builder.
#[derive(Debug, Clone)]
pub struct Layout {
    direction: Direction,
    constraints: Vec<Constraint>,
    margin: Margin,
    flex: Flex,
    spacing: i16,
}

impl Layout {
    pub closed spec fn spec_direction(&self) -> Direction {
        self.direction
    }

    pub closed spec fn spec_constraints(&self) -> Seq<Constraint> {
        self.constraints@
    }

    pub closed spec fn spec_margin(&self) -> Margin {
        self.margin
    }

    pub closed spec fn spec_flex(&self) -> Flex {
        self.flex
    }

    pub closed spec fn spec_spacing(&self) -> int {
        self.spacing as int
    }

    /// The area left once the margin is taken off.
    pub open spec fn spec_inner(&self, area: Rect) -> Rect {
        area.spec_inner(self.spec_margin())
    }

    /// The extent along the layout direction.
    pub open spec fn spec_total_space(&self, area: Rect) -> int {
        let inner = self.spec_inner(area);
        match self.spec_direction() {
            Direction::Vertical => inner.height as int,
            Direction::Horizontal => inner.width as int,
        }
    }

    /// Space left for segments once the spacing between them is taken off.
    pub open spec fn spec_available(&self, area: Rect) -> int {
        let n = self.spec_constraints().len() as int;
        let total_spacing = if n > 1 { (n - 1) * self.spec_spacing() } else { 0 };
        max_int(self.spec_total_space(area) - total_spacing, 0) % 65536
    }

    /// Whether the layout solves without arithmetic overflow for `area`.
    pub open spec fn solvable(&self, area: Rect) -> bool {
        let cs = self.spec_constraints();
        let n = cs.len() as int;
        let inner = self.spec_inner(area);
        let avail = self.spec_available(area);
        n == 0 || inner.width == 0 || inner.height == 0 || {
            &&& n <= 65535
            &&& forall|i: int| 0 <= i < n ==> (#[trigger] cs[i] matches Constraint::Ratio(num, _) ==> avail * num <= 0xffff_ffff)
            &&& sum(phase_base(cs, avail)) <= 65535
            &&& fill_total(cs) <= 65535
            &&& (self.spec_flex() == Flex::SpaceAround ==> 2 * n <= 65535)
            &&& (self.spec_flex() == Flex::SpaceEvenly ==> n + 1 <= 65535)
            &&& {
                let s1 = phase_base(cs, avail);
                let s4 = phase_clamp(cs, phase_min(cs, phase_fill(cs, s1, avail), avail));
                sum(s4) > avail ==> shrunk_prefix(s4, avail, sum(s4), n - 1) <= avail
            }
            &&& {
                let sizes = plan_sizes(cs, avail);
                let excess = sat_sub(avail, sum(sizes));
                let origin = match self.spec_direction() {
                    Direction::Vertical => inner.y as int,
                    Direction::Horizontal => inner.x as int,
                };
                origin + flex_params(self.spec_flex(), excess, n).0 <= 65535
            }
        }
    }

    /// The rectangles the layout splits `area` into.
    pub open spec fn spec_solve(&self, area: Rect) -> Seq<Rect> {
        let cs = self.spec_constraints();
        let n = cs.len() as int;
        let inner = self.spec_inner(area);
        if n == 0 || inner.width == 0 || inner.height == 0 {
            seq![inner]
        } else {
            let avail = self.spec_available(area);
            let sizes = plan_sizes(cs, avail);
            let excess = sat_sub(avail, sum(sizes));
            let (start, base, extra) = flex_params(self.spec_flex(), excess, n);
            let origin = match self.spec_direction() {
                Direction::Vertical => inner.y as int,
                Direction::Horizontal => inner.x as int,
            };
            Seq::new(n as nat, |i: int| {
                let pos = seg_pos(origin + start, sizes, self.spec_spacing(), base, extra, i);
                match self.spec_direction() {
                    Direction::Vertical => Rect { x: inner.x, y: pos as u16, width: inner.width, height: sizes[i] as u16 },
                    Direction::Horizontal => Rect { x: pos as u16, y: inner.y, width: sizes[i] as u16, height: inner.height },
                }
            })
        }
    }

    /// A layout with the given direction and constraints, no margin, no
    /// spacing, and segments packed at the start.
    pub fn new(direction: Direction, constraints: Vec<Constraint>) -> (r: Self)
        ensures
            r.spec_direction() == direction,
            r.spec_constraints() == constraints@,
            r.spec_margin() == (Margin { top: 0, right: 0, bottom: 0, left: 0 }),
            r.spec_flex() == Flex::Start,
            r.spec_spacing() == 0,
    {
        Layout { direction, constraints, margin: Margin::ZERO(), flex: Flex::Start, spacing: 0 }
    }

    pub fn vertical(constraints: Vec<Constraint>) -> (r: Self)
        ensures
            r.spec_direction() == Direction::Vertical,
            r.spec_constraints() == constraints@,
            r.spec_margin() == (Margin { top: 0, right: 0, bottom: 0, left: 0 }),
            r.spec_flex() == Flex::Start,
            r.spec_spacing() == 0,
    {
        Self::new(Direction::Vertical, constraints)
    }

    pub fn horizontal(constraints: Vec<Constraint>) -> (r: Self)
        ensures
            r.spec_direction() == Direction::Horizontal,
            r.spec_constraints() == constraints@,
            r.spec_margin() == (Margin { top: 0, right: 0, bottom: 0, left: 0 }),
            r.spec_flex() == Flex::Start,
            r.spec_spacing() == 0,
    {
        Self::new(Direction::Horizontal, constraints)
    }

    pub fn direction(self, direction: Direction) -> (r: Self)
        ensures
            r.spec_direction() == direction,
            r.spec_constraints() == self.spec_constraints(),
            r.spec_margin() == self.spec_margin(),
            r.spec_flex() == self.spec_flex(),
            r.spec_spacing() == self.spec_spacing(),
    {
        Layout { direction, ..self }
    }

    pub fn constraints(self, constraints: Vec<Constraint>) -> (r: Self)
        ensures
            r.spec_direction() == self.spec_direction(),
            r.spec_constraints() == constraints@,
            r.spec_margin() == self.spec_margin(),
            r.spec_flex() == self.spec_flex(),
            r.spec_spacing() == self.spec_spacing(),
    {
        Layout { constraints, ..self }
    }

    pub fn margin(self, margin: Margin) -> (r: Self)
        ensures
            r.spec_direction() == self.spec_direction(),
            r.spec_constraints() == self.spec_constraints(),
            r.spec_margin() == margin,
            r.spec_flex() == self.spec_flex(),
            r.spec_spacing() == self.spec_spacing(),
    {
        Layout { margin, ..self }
    }

    pub fn flex(self, flex: Flex) -> (r: Self)
        ensures
            r.spec_direction() == self.spec_direction(),
            r.spec_constraints() == self.spec_constraints(),
            r.spec_margin() == self.spec_margin(),
            r.spec_flex() == flex,
            r.spec_spacing() == self.spec_spacing(),
    {
        Layout { flex, ..self }
    }

    pub fn spacing(self, spacing: i16) -> (r: Self)
        ensures
            r.spec_direction() == self.spec_direction(),
            r.spec_constraints() == self.spec_constraints(),
            r.spec_margin() == self.spec_margin(),
            r.spec_flex() == self.spec_flex(),
            r.spec_spacing() == spacing,
    {
        Layout { spacing, ..self }
    }

    /// Fixed space between adjacent segments; a gap above `i16::MAX` wraps
    /// into the negative spacing its bit pattern denotes.
    pub fn gap(self, gap: u16) -> (r: Self)
        ensures
            r.spec_direction() == self.spec_direction(),
            r.spec_constraints() == self.spec_constraints(),
            r.spec_margin() == self.spec_margin(),
            r.spec_flex() == self.spec_flex(),
            r.spec_spacing() == (if gap <= 32767 { gap as int } else { gap - 65536 }),
    {
        let spacing: i16 = if gap <= 32767 { gap as i16 } else { (gap as i32 - 65536) as i16 };
        Layout { spacing, ..self }
    }

    /// Inset the area on all four sides before splitting.
    pub fn padding(self, padding: u16) -> (r: Self)
        ensures
            r.spec_direction() == self.spec_direction(),
            r.spec_constraints() == self.spec_constraints(),
            r.spec_margin() == (Margin { top: padding, right: padding, bottom: padding, left: padding }),
            r.spec_flex() == self.spec_flex(),
            r.spec_spacing() == self.spec_spacing(),
    {
        Layout { margin: Margin::uniform(padding), ..self }
    }

    /// Inset the left and right edges before splitting.
    pub fn horizontal_margin(self, margin: u16) -> (r: Self)
        ensures
            r.spec_direction() == self.spec_direction(),
            r.spec_constraints() == self.spec_constraints(),
            r.spec_margin() == (Margin { left: margin, right: margin, ..self.spec_margin() }),
            r.spec_flex() == self.spec_flex(),
            r.spec_spacing() == self.spec_spacing(),
    {
        let m = Margin { left: margin, right: margin, ..self.margin };
        Layout { margin: m, ..self }
    }

    /// Inset the top and bottom edges before splitting.
    pub fn vertical_margin(self, margin: u16) -> (r: Self)
        ensures
            r.spec_direction() == self.spec_direction(),
            r.spec_constraints() == self.spec_constraints(),
            r.spec_margin() == (Margin { top: margin, bottom: margin, ..self.spec_margin() }),
            r.spec_flex() == self.spec_flex(),
            r.spec_spacing() == self.spec_spacing(),
    {
        let m = Margin { top: margin, bottom: margin, ..self.margin };
        Layout { margin: m, ..self }
    }
}

impl Default for Layout {
    fn default() -> (r: Layout)
        ensures
            r.spec_direction() == Direction::Vertical,
            r.spec_constraints() == Seq::<Constraint>::empty(),
            r.spec_margin() == (Margin { top: 0, right: 0, bottom: 0, left: 0 }),
            r.spec_flex() == Flex::Start,
            r.spec_spacing() == 0,
    {
        Layout::new(Direction::Vertical, Vec::new())
    }
}

/// Each running count over the constraints grows by the contribution of the
/// next constraint.
pub proof fn lemma_counts_step(cs: Seq<Constraint>, i: int, rem: int, total: int)
    requires
        0 <= i < cs.len(),
    ensures
        fill_total(cs.take(i + 1)) == fill_total(cs.take(i)) + fill_weight(cs[i]),
        fill_count(cs.take(i + 1)) == fill_count(cs.take(i)) + if is_fill(cs[i]) { 1int } else { 0int },
        min_count(cs.take(i + 1)) == min_count(cs.take(i)) + if is_min(cs[i]) { 1int } else { 0int },
        plain_shares(cs.take(i + 1), rem, total) == plain_shares(cs.take(i), rem, total) + plain_share(cs[i], rem, total),
{
    assert(cs.take(i + 1).drop_last() =~= cs.take(i));
}

proof fn lemma_u32_to_u16(v: u32)
    ensures
        (v as u16) as int == v as int % 65536,
{
    assert((v as u16) as u32 == v % 65536) by (bit_vector);
}

/// Phase one of the solver.
fn base_sizes(cs: &Vec<Constraint>, avail: u16) -> (r: Vec<u16>)
    requires
        forall|i: int| 0 <= i < cs@.len() ==> (#[trigger] cs@[i] matches Constraint::Ratio(num, _) ==> avail * num <= 0xffff_ffff),
    ensures
        ints(r@) == phase_base(cs@, avail as int),
{
    let mut out: Vec<u16> = Vec::new();
    let mut i: usize = 0;
    while i < cs.len()
        invariant
            i <= cs@.len(),
            out@.len() == i,
            forall|j: int| 0 <= j < i ==> out@[j] as int == base_size(#[trigger] cs@[j], avail as int),
            forall|i: int| 0 <= i < cs@.len() ==> (#[trigger] cs@[i] matches Constraint::Ratio(num, _) ==> avail * num <= 0xffff_ffff),
        decreases cs@.len() - i,
    {
        let c = cs[i];
        let v: u16 = match c {
            Constraint::Length(l) => if l <= avail { l } else { avail },
            Constraint::Percentage(p) => {
                assert(avail * p <= 65535 * 65535) by (nonlinear_arith)
                    requires avail <= 65535, p <= 65535;
                let q: u32 = (avail as u32 * p as u32) / 100;
                proof { lemma_u32_to_u16(q); }
                q as u16
            },
            Constraint::Min(m) => m,
            Constraint::Max(m) => if m <= avail { m } else { avail },
            Constraint::Ratio(num, den) => {
                assert(cs@[i as int] matches Constraint::Ratio(num, _) ==> avail * num <= 0xffff_ffff);
                let prod: u32 = avail as u32 * num;
                let q: u32 = match prod.checked_div(den) { Some(q) => q, None => 0 };
                proof { lemma_u32_to_u16(q); }
                q as u16
            },
            Constraint::Fill(_) => 0,
        };
        out.push(v);
        i = i + 1;
    }
    assert(ints(out@) =~= phase_base(cs@, avail as int));
    out
}

/// Rounded-down proportional shares never exceed the exact proportion.
pub proof fn lemma_plain_shares_bound(cs: Seq<Constraint>, rem: int, total: int)
    requires
        rem >= 0,
        total > 0,
    ensures
        plain_shares(cs, rem, total) * total <= rem * fill_total(cs),
        plain_shares(cs, rem, total) >= 0,
        fill_total(cs) >= 0,
    decreases cs.len(),
{
    if cs.len() > 0 {
        lemma_plain_shares_bound(cs.drop_last(), rem, total);
        let c = cs.last();
        let w = fill_weight(c);
        assert(w >= 0);
        if is_fill(c) {
            assert((rem * w / total) * total <= rem * w) by (nonlinear_arith)
                requires rem >= 0, w >= 0, total > 0;
            assert(rem * w / total >= 0) by (nonlinear_arith)
                requires rem >= 0, w >= 0, total > 0;
        }
        assert(plain_shares(cs, rem, total) * total == plain_shares(cs.drop_last(), rem, total) * total + plain_share(c, rem, total) * total) by (nonlinear_arith)
            requires plain_shares(cs, rem, total) == plain_shares(cs.drop_last(), rem, total) + plain_share(c, rem, total);
        assert(rem * fill_total(cs) == rem * fill_total(cs.drop_last()) + rem * w) by (nonlinear_arith)
            requires fill_total(cs) == fill_total(cs.drop_last()) + w;
    }
}

/// The fill weights of a prefix add up to no more than all of them.
pub proof fn lemma_fill_total_prefix(cs: Seq<Constraint>, i: int)
    requires
        0 <= i <= cs.len(),
    ensures
        0 <= fill_total(cs.take(i)) <= fill_total(cs),
        0 <= fill_count(cs.take(i)) <= fill_count(cs),
        0 <= min_count(cs.take(i)) <= min_count(cs),
    decreases cs.len() - i,
{
    if i == cs.len() {
        assert(cs.take(i) =~= cs);
        lemma_counts_nonneg(cs);
    } else {
        lemma_fill_total_prefix(cs, i + 1);
        lemma_counts_step(cs, i, 0, 1);
        lemma_counts_nonneg(cs.take(i));
    }
}

pub proof fn lemma_counts_nonneg(cs: Seq<Constraint>)
    ensures
        fill_total(cs) >= 0,
        fill_count(cs) >= 0,
        min_count(cs) >= 0,
        fill_count(cs) <= cs.len(),
        min_count(cs) <= cs.len(),
    decreases cs.len(),
{
    if cs.len() > 0 {
        lemma_counts_nonneg(cs.drop_last());
    }
}

pub proof fn lemma_count_prefix_mono(cs: Seq<Constraint>, i: int, j: int)
    requires
        0 <= i <= j <= cs.len(),
    ensures
        fill_count(cs.take(i)) <= fill_count(cs.take(j)),
        min_count(cs.take(i)) <= min_count(cs.take(j)),
    decreases j - i,
{
    if i < j {
        lemma_count_prefix_mono(cs, i, j - 1);
        lemma_counts_step(cs, j - 1, 0, 1);
    }
}

/// Phase two of the solver: share the unclaimed space among the fills.
fn share_fills(cs: &Vec<Constraint>, sizes: &mut Vec<u16>, avail: u16)
    requires
        old(sizes)@.len() == cs@.len(),
        sum(ints(old(sizes)@)) <= 65535,
        fill_total(cs@) <= 65535,
    ensures
        ints(final(sizes)@) == phase_fill(cs@, ints(old(sizes)@), avail as int),
{
    let ghost s0 = ints(sizes@);
    let fixed_total = sum_u16(sizes);
    let remaining = avail.saturating_sub(fixed_total);
    let n = cs.len();
    let mut total: u16 = 0;
    let mut count: usize = 0;
    let mut i: usize = 0;
    while i < n
        invariant
            n == cs@.len(),
            i <= n,
            total == fill_total(cs@.take(i as int)),
            count == fill_count(cs@.take(i as int)),
            fill_total(cs@) <= 65535,
        decreases n - i,
    {
        proof {
            lemma_counts_step(cs@, i as int, 0, 1);
            lemma_fill_total_prefix(cs@, i + 1);
            lemma_counts_nonneg(cs@.take(i + 1));
        }
        match cs[i] {
            Constraint::Fill(w) => {
                total = total + w;
                count = count + 1;
            },
            _ => {},
        }
        i = i + 1;
    }
    assert(cs@.take(n as int) =~= cs@);
    if total > 0 && remaining > 0 {
        let ghost rem = remaining as int;
        let ghost t = total as int;
        let mut distributed: u16 = 0;
        let mut idx: usize = 0;
        let mut i: usize = 0;
        while i < n
            invariant
                n == cs@.len(),
                i <= n,
                sizes@.len() == n,
                s0.len() == n,
                rem == remaining,
                t == total,
                t == fill_total(cs@),
                t > 0,
                rem > 0,
                count == fill_count(cs@),
                idx == fill_count(cs@.take(i as int)),
                idx < count ==> distributed == plain_shares(cs@.take(i as int), rem, t),
                forall|j: int| i <= j < n ==> sizes@[j] as int == s0[j],
                forall|j: int| 0 <= j < i ==> sizes@[j] as int == (if is_fill(cs@[j]) { fill_share(cs@, rem, t, j) } else { s0[j] }),
            decreases n - i,
        {
            proof {
                lemma_counts_step(cs@, i as int, rem, t);
                lemma_fill_total_prefix(cs@, i as int);
                lemma_fill_total_prefix(cs@, i + 1);
                lemma_plain_shares_bound(cs@.take(i + 1), rem, t);
                lemma_plain_shares_bound(cs@.take(i as int), rem, t);
            }
            match cs[i] {
                Constraint::Fill(w) => {
                    idx = idx + 1;
                    let share: u16 = if idx == count {
                        assert(distributed * t <= rem * t) by (nonlinear_arith)
                            requires distributed * t <= rem * fill_total(cs@.take(i as int)), fill_total(cs@.take(i as int)) <= t, rem >= 0, t > 0;
                        assert(distributed <= rem) by (nonlinear_arith)
                            requires distributed * t <= rem * t, t > 0;
                        remaining - distributed
                    } else {
                        assert(plain_shares(cs@.take(i + 1), rem, t) <= rem) by (nonlinear_arith)
                            requires plain_shares(cs@.take(i + 1), rem, t) * t <= rem * fill_total(cs@.take(i + 1)),
                                fill_total(cs@.take(i + 1)) <= t, rem >= 0, t > 0;
                        assert(rem * w <= 65535 * 65535) by (nonlinear_arith)
                            requires 0 <= rem <= 65535, 0 <= w <= 65535;
                        let q: u32 = (remaining as u32 * w as u32) / total as u32;
                        q as u16
                    };
                    sizes.set(i, share);
                    if idx < count {
                        distributed = distributed + share;
                    } else {
                        distributed = remaining;
                    }
                },
                _ => {},
            }
            i = i + 1;
        }
        assert(ints(sizes@) =~= phase_fill(cs@, s0, avail as int));
    } else {
        assert(ints(sizes@) =~= phase_fill(cs@, s0, avail as int));
    }
}

pub proof fn lemma_fill_total_pos(cs: Seq<Constraint>)
    requires
        fill_total(cs) > 0,
    ensures
        fill_count(cs) > 0,
    decreases cs.len(),
{
    lemma_counts_nonneg(cs);
    if cs.len() > 0 {
        lemma_counts_nonneg(cs.drop_last());
        if !is_fill(cs.last()) {
            lemma_fill_total_pos(cs.drop_last());
        }
    }
}

proof fn lemma_fill_sum_prefix(cs: Seq<Constraint>, base: Seq<int>, avail: int, k: int)
    requires
        base.len() == cs.len(),
        forall|i: int| 0 <= i < cs.len() && is_fill(#[trigger] cs[i]) ==> base[i] == 0,
        0 <= k <= cs.len(),
        fill_total(cs) > 0,
        sat_sub(avail, sum(base)) > 0,
    ensures
        ({
            let rem = sat_sub(avail, sum(base));
            let f = phase_fill(cs, base, avail);
            sum(f.take(k)) == sum(base.take(k)) + if fill_count(cs.take(k)) == fill_count(cs) {
                rem
            } else {
                plain_shares(cs.take(k), rem, fill_total(cs))
            }
        }),
    decreases k,
{
    let rem = sat_sub(avail, sum(base));
    let t = fill_total(cs);
    let f = phase_fill(cs, base, avail);
    lemma_fill_total_pos(cs);
    if k == 0 {
        assert(f.take(0) =~= Seq::<int>::empty());
        assert(base.take(0) =~= Seq::<int>::empty());
        assert(cs.take(0) =~= Seq::<Constraint>::empty());
    } else {
        lemma_fill_sum_prefix(cs, base, avail, k - 1);
        lemma_sum_take_step(f, k - 1);
        lemma_sum_take_step(base, k - 1);
        lemma_counts_step(cs, k - 1, rem, t);
        lemma_fill_total_prefix(cs, k - 1);
        lemma_fill_total_prefix(cs, k);
    }
}

/// Phase two hands the fills exactly the space that phase one left over.
pub proof fn lemma_fill_sum(cs: Seq<Constraint>, base: Seq<int>, avail: int)
    requires
        base.len() == cs.len(),
        forall|i: int| 0 <= i < cs.len() && is_fill(#[trigger] cs[i]) ==> base[i] == 0,
    ensures
        ({
            let rem = sat_sub(avail, sum(base));
            sum(phase_fill(cs, base, avail)) == if fill_total(cs) > 0 && rem > 0 { sum(base) + rem } else { sum(base) }
        }),
{
    let rem = sat_sub(avail, sum(base));
    if fill_total(cs) > 0 && rem > 0 {
        let f = phase_fill(cs, base, avail);
        lemma_fill_sum_prefix(cs, base, avail, cs.len() as int);
        lemma_sum_take_all(f);
        lemma_sum_take_all(base);
        assert(cs.take(cs.len() as int) =~= cs);
    }
}

proof fn lemma_min_sum_prefix(cs: Seq<Constraint>, s: Seq<int>, avail: int, k: int)
    requires
        s.len() == cs.len(),
        0 <= k <= cs.len(),
        min_count(cs) > 0,
        sat_sub(avail, sum(s)) > 0,
    ensures
        ({
            let left = sat_sub(avail, sum(s));
            let g = phase_min(cs, s, avail);
            let mc = min_count(cs);
            sum(g.take(k)) == sum(s.take(k)) + if min_count(cs.take(k)) == mc {
                left
            } else {
                (left / mc) * min_count(cs.take(k))
            }
        }),
    decreases k,
{
    let left = sat_sub(avail, sum(s));
    let mc = min_count(cs);
    let g = phase_min(cs, s, avail);
    let share = left / mc;
    if k == 0 {
        assert(g.take(0) =~= Seq::<int>::empty());
        assert(s.take(0) =~= Seq::<int>::empty());
        assert(cs.take(0) =~= Seq::<Constraint>::empty());
    } else {
        lemma_min_sum_prefix(cs, s, avail, k - 1);
        lemma_sum_take_step(g, k - 1);
        lemma_sum_take_step(s, k - 1);
        lemma_counts_step(cs, k - 1, 0, 1);
        lemma_fill_total_prefix(cs, k - 1);
        lemma_fill_total_prefix(cs, k);
        if is_min(cs[k - 1]) && min_count(cs.take(k)) == mc {
            assert(share * min_count(cs.take(k - 1)) + (left - share * (mc - 1)) == left) by (nonlinear_arith)
                requires min_count(cs.take(k - 1)) == mc - 1;
        } else if is_min(cs[k - 1]) {
            assert(share * min_count(cs.take(k - 1)) + share == share * min_count(cs.take(k))) by (nonlinear_arith)
                requires min_count(cs.take(k)) == min_count(cs.take(k - 1)) + 1;
        }
    }
}

/// Phase two, continued, hands the `Min` constraints exactly the space left.
pub proof fn lemma_min_sum(cs: Seq<Constraint>, s: Seq<int>, avail: int)
    requires
        s.len() == cs.len(),
    ensures
        ({
            let left = sat_sub(avail, sum(s));
            sum(phase_min(cs, s, avail)) == if min_count(cs) > 0 && left > 0 { sum(s) + left } else { sum(s) }
        }),
{
    let left = sat_sub(avail, sum(s));
    if min_count(cs) > 0 && left > 0 {
        let g = phase_min(cs, s, avail);
        lemma_min_sum_prefix(cs, s, avail, cs.len() as int);
        lemma_sum_take_all(g);
        lemma_sum_take_all(s);
        assert(cs.take(cs.len() as int) =~= cs);
    }
}

/// A pointwise smaller sequence has a smaller sum.
pub proof fn lemma_sum_pointwise_le(a: Seq<int>, b: Seq<int>)
    requires
        a.len() == b.len(),
        forall|i: int| 0 <= i < a.len() ==> a[i] <= b[i],
    ensures
        sum(a) <= sum(b),
    decreases a.len(),
{
    if a.len() > 0 {
        lemma_sum_pointwise_le(a.drop_last(), b.drop_last());
    }
}

/// Phase two, continued, of the solver: share what is left among the `Min`
/// constraints.
fn share_mins(cs: &Vec<Constraint>, sizes: &mut Vec<u16>, avail: u16)
    requires
        old(sizes)@.len() == cs@.len(),
        cs@.len() <= 65535,
        sum(ints(old(sizes)@)) <= 65535,
    ensures
        ints(final(sizes)@) == phase_min(cs@, ints(old(sizes)@), avail as int),
{
    let ghost s0 = ints(sizes@);
    let used = sum_u16(sizes);
    let leftover = avail.saturating_sub(used);
    let n = cs.len();
    let mut count: usize = 0;
    let mut i: usize = 0;
    while i < n
        invariant
            n == cs@.len(),
            i <= n,
            count == min_count(cs@.take(i as int)),
        decreases n - i,
    {
        proof {
            lemma_counts_step(cs@, i as int, 0, 1);
            lemma_counts_nonneg(cs@.take(i + 1));
        }
        match cs[i] {
            Constraint::Min(_) => { count = count + 1; },
            _ => {},
        }
        i = i + 1;
    }
    assert(cs@.take(n as int) =~= cs@);
    proof { lemma_counts_nonneg(cs@); }
    if count > 0 && leftover > 0 {
        let ghost left = leftover as int;
        let share: u16 = leftover / (count as u16);
        let mut distributed: u16 = 0;
        let mut idx: usize = 0;
        let mut i: usize = 0;
        while i < n
            invariant
                n == cs@.len(),
                n <= 65535,
                i <= n,
                sizes@.len() == n,
                s0.len() == n,
                left == leftover,
                left > 0,
                sum(s0) <= 65535,
                sum(s0) + left <= 65535,
                count == min_count(cs@),
                count > 0,
                share == left / (count as int),
                idx == min_count(cs@.take(i as int)),
                idx < count ==> distributed == share * idx,
                forall|j: int| 0 <= j < n ==> s0[j] >= 0,
                forall|j: int| i <= j < n ==> sizes@[j] as int == s0[j],
                forall|j: int| 0 <= j < i ==> sizes@[j] as int == (if is_min(cs@[j]) { s0[j] + min_extra(cs@, left, j) } else { s0[j] }),
            decreases n - i,
        {
            proof {
                lemma_counts_step(cs@, i as int, 0, 1);
                lemma_fill_total_prefix(cs@, i as int);
                lemma_fill_total_prefix(cs@, i + 1);
            }
            match cs[i] {
                Constraint::Min(_) => {
                    idx = idx + 1;
                    assert(share * count <= left) by (nonlinear_arith)
                        requires share == left / (count as int), count > 0, left >= 0;
                    assert(share * (idx - 1) <= share * count) by (nonlinear_arith)
                        requires idx <= count, share >= 0;
                    let extra: u16 = if idx == count {
                        leftover - distributed
                    } else {
                        share
                    };
                    assert(s0[i as int] + extra <= 65535) by {
                        lemma_sum_single_le(s0, i as int);
                        assert(share <= left) by (nonlinear_arith)
                            requires share == left / (count as int), count > 0, left >= 0;
                    }
                    sizes.set(i, sizes[i] + extra);
                    if idx < count {
                        assert(share * (idx - 1) + share == share * idx) by (nonlinear_arith);
                        assert(share * idx <= share * count) by (nonlinear_arith)
                            requires idx <= count, share >= 0;
                        distributed = distributed + extra;
                    }
                },
                _ => {},
            }
            i = i + 1;
        }
        assert(ints(sizes@) =~= phase_min(cs@, s0, avail as int));
    } else {
        assert(ints(sizes@) =~= phase_min(cs@, s0, avail as int));
    }
}

/// A single non-negative term is at most the whole sum.
pub proof fn lemma_sum_single_le(s: Seq<int>, i: int)
    requires
        0 <= i < s.len(),
        forall|j: int| 0 <= j < s.len() ==> s[j] >= 0,
    ensures
        s[i] <= sum(s),
{
    lemma_sum_prefix_le(s, i);
    lemma_sum_take_step(s, i);
    lemma_sum_prefix_le(s, i + 1);
}

pub proof fn lemma_two_pow_le(k: nat, m: nat)
    requires
        k <= m,
    ensures
        1 <= two_pow(k) <= two_pow(m),
    decreases m,
{
    if k < m {
        lemma_two_pow_le(k, (m - 1) as nat);
    } else if m > 0 {
        lemma_two_pow_le((m - 1) as nat, (m - 1) as nat);
    }
}

pub proof fn lemma_two_pow_83()
    ensures
        two_pow(70) == 0x40_0000_0000_0000_0000,
        two_pow(83) == 0x8_0000_0000_0000_0000_0000,
{
    reveal_with_fuel(two_pow, 84);
}

/// `num / den` rounded to the nearest integer, ties to even.
fn round_half_even_u128(num: u128, den: u128) -> (r: u128)
    requires
        0 < den < 0x1_0000_0000_0000_0000_0000_0000_0000,
        num < 0x1_0000_0000_0000_0000_0000_0000_0000,
    ensures
        r == round_half_even(num as int, den as int),
        r <= num / den + 1,
{
    let q = num / den;
    let r = num % den;
    if 2 * r > den || (2 * r == den && q % 2 == 1) { q + 1 } else { q }
}

/// `(s as f64 * (a as f64 / t as f64)) as u16`, computed exactly in integers.
fn float_scaled_exec(s: u16, a: u16, t: u16) -> (r: u16)
    requires
        a < t,
    ensures
        r == float_scaled(s as int, a as int, t as int),
{
    if a == 0 {
        return 0;
    }
    proof {
        lemma_two_pow_83();
        lemma_two_pow_le(52, 70);
        lemma_two_pow_le(53, 83);
    }
    let mut p52: u128 = 1;
    let mut i: u32 = 0;
    while i < 52
        invariant
            i <= 52,
            p52 == two_pow(i as nat),
            two_pow(70) == 0x40_0000_0000_0000_0000,
        decreases 52 - i,
    {
        proof { lemma_two_pow_le((i + 1) as nat, 70); }
        p52 = p52 * 2;
        i = i + 1;
    }
    assert(t * p52 <= 65535 * 0x40_0000_0000_0000_0000) by (nonlinear_arith)
        requires t <= 65535, p52 <= 0x40_0000_0000_0000_0000;
    let target: u128 = t as u128 * p52;
    let mut k: u32 = 0;
    let mut pk: u128 = 1;
    while k < 70 && (a as u128) * pk < target
        invariant
            k <= 70,
            pk == two_pow(k as nat),
            pk <= 0x40_0000_0000_0000_0000,
            a * pk <= 65535 * 0x40_0000_0000_0000_0000,
            two_pow(70) == 0x40_0000_0000_0000_0000,
            target == t * two_pow(52),
            norm_exp(a as int, t as int, 0) == norm_exp(a as int, t as int, k as nat),
        decreases 70 - k,
    {
        proof { lemma_two_pow_le((k + 1) as nat, 70); }
        pk = pk * 2;
        k = k + 1;
        assert(a * pk <= 65535 * 0x40_0000_0000_0000_0000) by (nonlinear_arith)
            requires a <= 65535, pk <= 0x40_0000_0000_0000_0000;
    }
    let num: u128 = a as u128 * pk;
    assert(num <= 65535 * 0x40_0000_0000_0000_0000) by (nonlinear_arith)
        requires num == a * pk, a <= 65535, pk <= 0x40_0000_0000_0000_0000;
    let m = round_half_even_u128(num, t as u128);
    assert(num / (t as u128) <= num) by (nonlinear_arith)
        requires t >= 1, num >= 0;
    assert(s * m <= 65535 * (65535 * 0x40_0000_0000_0000_0000 + 1)) by (nonlinear_arith)
        requires s <= 65535, m <= 65535 * 0x40_0000_0000_0000_0000 + 1;
    let p: u128 = s as u128 * m;
    let mut d: u32 = 0;
    let mut pd: u128 = 1;
    let mut p53d: u128 = p52 * 2;
    while d < 30 && p >= p53d
        invariant
            d <= 30,
            pd == two_pow(d as nat),
            p53d == two_pow((53 + d) as nat),
            p53d <= 0x8_0000_0000_0000_0000_0000,
            1 <= pd <= p53d,
            two_pow(83) == 0x8_0000_0000_0000_0000_0000,
            prod_exp(p as int, 0) == prod_exp(p as int, d as nat),
        decreases 30 - d,
    {
        proof {
            lemma_two_pow_le((53 + d + 1) as nat, 83);
            lemma_two_pow_le((d + 1) as nat, (53 + d + 1) as nat);
        }
        pd = pd * 2;
        p53d = p53d * 2;
        d = d + 1;
    }
    let q = round_half_even_u128(p, pd);
    assert(q * pd <= p + pd) by (nonlinear_arith)
        requires q <= p / pd + 1, pd >= 1, p >= 0;
    let rounded: u128 = q * pd;
    let v: u128 = rounded / pk;
    if v > 65535 { 65535 } else { v as u16 }
}

/// Phase three of the solver: enforce the `Min` and `Max` bounds.
fn clamp_sizes(cs: &Vec<Constraint>, sizes: &mut Vec<u16>)
    requires
        old(sizes)@.len() == cs@.len(),
    ensures
        ints(final(sizes)@) == phase_clamp(cs@, ints(old(sizes)@)),
{
    let ghost s0 = ints(sizes@);
    let mut i: usize = 0;
    while i < cs.len()
        invariant
            i <= cs@.len(),
            sizes@.len() == cs@.len(),
            s0.len() == cs@.len(),
            forall|j: int| i <= j < cs@.len() ==> sizes@[j] as int == s0[j],
            forall|j: int| 0 <= j < i ==> sizes@[j] as int == phase_clamp(cs@, s0)[j],
        decreases cs@.len() - i,
    {
        let v = sizes[i];
        match cs[i] {
            Constraint::Min(m) => { if v < m { sizes.set(i, m); } },
            Constraint::Max(m) => { if v > m { sizes.set(i, m); } },
            _ => {},
        }
        i = i + 1;
    }
    assert(ints(sizes@) =~= phase_clamp(cs@, s0));
}

pub proof fn lemma_float_scaled_range(s: int, a: int, t: int)
    requires
        0 <= s,
        0 <= a < t,
    ensures
        0 <= float_scaled(s, a, t) <= 65535,
{
    if a != 0 {
        let k = norm_exp(a, t, 0);
        lemma_two_pow_le(0, k);
        let num = a * two_pow(k);
        assert(a * two_pow(k) >= 0) by (nonlinear_arith) requires a >= 0, two_pow(k) >= 1;
        let m = round_half_even(num, t);
        assert(num / t >= 0) by (nonlinear_arith) requires num >= 0, t > 0;
        assert(m >= 0);
        let p = s * m;
        assert(s * m >= 0) by (nonlinear_arith) requires s >= 0, m >= 0;
        let d = prod_exp(p, 0);
        lemma_two_pow_le(0, d);
        let q = round_half_even(p, two_pow(d));
        assert(p / two_pow(d) >= 0) by (nonlinear_arith) requires p >= 0, two_pow(d) >= 1;
        assert(q >= 0);
        assert(q * two_pow(d) >= 0) by (nonlinear_arith) requires q >= 0, two_pow(d) >= 1;
        assert((q * two_pow(d)) / two_pow(k) >= 0) by (nonlinear_arith) requires q * two_pow(d) >= 0, two_pow(k) >= 1;
    }
}

pub proof fn lemma_shrunk_prefix_mono(s: Seq<int>, avail: int, total: int, i: int, j: int)
    requires
        0 <= i <= j <= s.len(),
        0 <= avail < total,
        forall|k: int| 0 <= k < s.len() ==> s[k] >= 0,
    ensures
        0 <= shrunk_prefix(s, avail, total, i) <= shrunk_prefix(s, avail, total, j),
    decreases j,
{
    if j > 0 {
        if i < j {
            lemma_shrunk_prefix_mono(s, avail, total, i, j - 1);
        } else {
            lemma_shrunk_prefix_mono(s, avail, total, i - 1, j - 1);
        }
        lemma_float_scaled_range(s[j - 1], avail, total);
    }
}

pub proof fn lemma_shrink_sum_prefix(s: Seq<int>, avail: int, k: int)
    requires
        0 <= k < s.len(),
        sum(s) > avail,
    ensures
        sum(phase_shrink(s, avail).take(k)) == shrunk_prefix(s, avail, sum(s), k),
    decreases k,
{
    let f = phase_shrink(s, avail);
    if k == 0 {
        assert(f.take(0) =~= Seq::<int>::empty());
    } else {
        lemma_shrink_sum_prefix(s, avail, k - 1);
        lemma_sum_take_step(f, k - 1);
    }
}

/// After phase four the sizes add up to the available space exactly.
pub proof fn lemma_shrink_sum(s: Seq<int>, avail: int)
    requires
        s.len() > 0,
    ensures
        sum(phase_shrink(s, avail)) == if sum(s) > avail { avail } else { sum(s) },
{
    if sum(s) > avail {
        let f = phase_shrink(s, avail);
        let n = s.len() as int;
        lemma_shrink_sum_prefix(s, avail, n - 1);
        lemma_sum_take_step(f, n - 1);
        lemma_sum_take_all(f);
    }
}

/// Phase four of the solver: scale the sizes down to the available space.
fn shrink_sizes(sizes: &mut Vec<u16>, avail: u16)
    requires
        old(sizes)@.len() > 0,
        sum(ints(old(sizes)@)) <= 65535,
        sum(ints(old(sizes)@)) > avail ==> shrunk_prefix(ints(old(sizes)@), avail as int, sum(ints(old(sizes)@)), old(sizes)@.len() - 1) <= avail,
    ensures
        ints(final(sizes)@) == phase_shrink(ints(old(sizes)@), avail as int),
{
    let ghost s0 = ints(sizes@);
    let total = sum_u16(sizes);
    if total > avail {
        let n = sizes.len();
        let mut shrunk_total: u16 = 0;
        let mut i: usize = 0;
        while i < n
            invariant
                n == sizes@.len(),
                n == s0.len(),
                n > 0,
                i <= n,
                total == sum(s0),
                total > avail,
                shrunk_prefix(s0, avail as int, total as int, n - 1) <= avail,
                forall|j: int| 0 <= j < n ==> s0[j] >= 0,
                i < n ==> shrunk_total == shrunk_prefix(s0, avail as int, total as int, i as int),
                forall|j: int| i <= j < n ==> sizes@[j] as int == s0[j],
                forall|j: int| 0 <= j < i ==> sizes@[j] as int == phase_shrink(s0, avail as int)[j],
            decreases n - i,
        {
            proof { lemma_shrunk_prefix_mono(s0, avail as int, total as int, i as int, n - 1); }
            if i == n - 1 {
                sizes.set(i, avail - shrunk_total);
            } else {
                let v = float_scaled_exec(sizes[i], avail, total);
                proof { lemma_shrunk_prefix_mono(s0, avail as int, total as int, i + 1, n - 1); }
                sizes.set(i, v);
                shrunk_total = shrunk_total + v;
            }
            i = i + 1;
        }
        assert(ints(sizes@) =~= phase_shrink(s0, avail as int));
    } else {
        assert(ints(sizes@) =~= phase_shrink(s0, avail as int));
    }
}

proof fn lemma_i32_to_u16(v: i32)
    requires
        v >= 0,
    ensures
        (v as u16) as int == v as int % 65536,
{
    assert(v >= 0 ==> (v as u16) as i32 == v % 65536) by (bit_vector);
}

/// The rectangle for a segment starting at `pos` with extent `size`.
pub open spec fn seg_rect(direction: Direction, inner: Rect, pos: int, size: int) -> Rect {
    match direction {
        Direction::Vertical => Rect { x: inner.x, y: pos as u16, width: inner.width, height: size as u16 },
        Direction::Horizontal => Rect { x: pos as u16, y: inner.y, width: size as u16, height: inner.height },
    }
}

/// Phase five of the solver: turn sizes into rectangles.
fn place(direction: Direction, inner: Rect, flex: Flex, spacing: i16, avail: u16, sizes: &Vec<u16>) -> (r: Vec<Rect>)
    requires
        0 < sizes@.len() <= 65535,
        sum(ints(sizes@)) <= 65535,
        flex == Flex::SpaceAround ==> 2 * sizes@.len() <= 65535,
        flex == Flex::SpaceEvenly ==> sizes@.len() + 1 <= 65535,
        ({
            let excess = sat_sub(avail as int, sum(ints(sizes@)));
            let origin = match direction { Direction::Vertical => inner.y as int, Direction::Horizontal => inner.x as int };
            origin + flex_params(flex, excess, sizes@.len() as int).0 <= 65535
        }),
    ensures
        ({
            let s = ints(sizes@);
            let n = s.len() as int;
            let excess = sat_sub(avail as int, sum(s));
            let (start, base, extra) = flex_params(flex, excess, n);
            let origin = match direction { Direction::Vertical => inner.y as int, Direction::Horizontal => inner.x as int };
            r@ == Seq::new(n as nat, |i: int| seg_rect(direction, inner, seg_pos(origin + start, s, spacing as int, base, extra, i), s[i]))
        }),
{
    let ghost s = ints(sizes@);
    let n = sizes.len();
    let actual_total = sum_u16(sizes);
    let excess = avail.saturating_sub(actual_total);
    let gap_count: u16 = (n - 1) as u16;
    let (start_offset, gap_base, gap_extra): (u16, u16, u16) = match flex {
        Flex::Start => (0, 0, 0),
        Flex::Center => (excess / 2, 0, 0),
        Flex::End => (excess, 0, 0),
        Flex::SpaceBetween => match excess.checked_div(gap_count) {
            Some(base) => (0, base, excess % gap_count),
            None => (0, 0, 0),
        },
        Flex::SpaceAround => {
            let den: u16 = n as u16 * 2;
            let half = excess / den;
            assert(half * 2 <= excess) by (nonlinear_arith)
                requires half == excess / den, den >= 2, excess >= 0;
            (half, half * 2, 0)
        },
        Flex::SpaceEvenly => {
            let unit = excess / (n as u16 + 1);
            (unit, unit, 0)
        },
    };
    let ghost params = flex_params(flex, excess as int, n as int);
    assert(start_offset == params.0 && gap_base == params.1 && gap_extra == params.2);
    assert(gap_extra > 0 ==> gap_base <= 32767) by {
        if gap_extra > 0 {
            assert(flex == Flex::SpaceBetween);
            assert(gap_count >= 2);
            assert(gap_base <= 32767) by (nonlinear_arith)
                requires gap_base == excess / gap_count, gap_count >= 2, excess <= 65535;
        }
    }
    let origin: u16 = match direction { Direction::Vertical => inner.y, Direction::Horizontal => inner.x };
    let mut pos: u16 = origin + start_offset;
    let mut out: Vec<Rect> = Vec::new();
    let mut i: usize = 0;
    while i < n
        invariant
            n == sizes@.len(),
            n <= 65535,
            s == ints(sizes@),
            i <= n,
            out@.len() == i,
            gap_extra > 0 ==> gap_base <= 32767,
            pos == seg_pos(origin + start_offset, s, spacing as int, gap_base as int, gap_extra as int, i as int),
            forall|j: int| 0 <= j < i ==> out@[j] == seg_rect(direction, inner,
                seg_pos(origin + start_offset, s, spacing as int, gap_base as int, gap_extra as int, j), s[j]),
        decreases n - i,
    {
        let size = sizes[i];
        let rect = match direction {
            Direction::Vertical => Rect::new(inner.x, pos, inner.width, size),
            Direction::Horizontal => Rect::new(pos, inner.y, size, inner.height),
        };
        out.push(rect);
        let p1 = pos.saturating_add(size);
        if i < n - 1 {
            let extra: u16 = if (i as u16) < gap_extra { 1 } else { 0 };
            let v: i32 = p1 as i32 + spacing as i32;
            let v2: i32 = if v < 0 { 0 } else { v };
            proof { lemma_i32_to_u16(v2); }
            let p2: u16 = v2 as u16;
            pos = p2.saturating_add(gap_base + extra);
        } else {
            pos = p1;
        }
        i = i + 1;
    }
    assert(out@ =~= Seq::new(n as nat, |j: int| seg_rect(direction, inner,
        seg_pos(origin + start_offset, s, spacing as int, gap_base as int, gap_extra as int, j), s[j])));
    out
}

/// `Min` bounds are already met after phase two, so phase three only ever
/// shrinks a size.
pub proof fn lemma_clamp_shrinks(cs: Seq<Constraint>, avail: int)
    requires
        avail >= 0,
    ensures
        ({
            let s3 = phase_min(cs, phase_fill(cs, phase_base(cs, avail), avail), avail);
            forall|i: int| 0 <= i < cs.len() ==> 0 <= #[trigger] phase_clamp(cs, s3)[i] <= s3[i]
        }),
{
    let s1 = phase_base(cs, avail);
    let s2 = phase_fill(cs, s1, avail);
    let s3 = phase_min(cs, s2, avail);
    let left = sat_sub(avail, sum(s2));
    let mc = min_count(cs);
    assert forall|i: int| 0 <= i < cs.len() implies 0 <= #[trigger] phase_clamp(cs, s3)[i] <= s3[i] by {
        let rem = sat_sub(avail, sum(s1));
        let t = fill_total(cs);
        if t > 0 && rem > 0 && is_fill(cs[i]) {
            lemma_plain_shares_bound(cs.take(i), rem, t);
            lemma_fill_total_prefix(cs, i);
            assert(plain_shares(cs.take(i), rem, t) <= rem) by (nonlinear_arith)
                requires plain_shares(cs.take(i), rem, t) * t <= rem * fill_total(cs.take(i)),
                    fill_total(cs.take(i)) <= t, rem >= 0, t > 0;
            assert(rem * fill_weight(cs[i]) / t >= 0) by (nonlinear_arith)
                requires rem >= 0, fill_weight(cs[i]) >= 0, t > 0;
        }
        assert(s1[i] >= 0) by {
            match cs[i] {
                Constraint::Percentage(p) => {
                    assert((avail * p / 100int) % 65536 >= 0);
                },
                Constraint::Ratio(num, den) => {
                    if den != 0 {
                        assert((avail * num / (den as int)) % 65536 >= 0);
                    }
                },
                _ => {},
            }
        }
        assert(s2[i] >= 0);
        if mc > 0 && left > 0 && is_min(cs[i]) {
            let share = left / mc;
            assert(share >= 0 && share * mc <= left) by (nonlinear_arith)
                requires share == left / mc, mc > 0, left > 0;
            assert(share * (mc - 1) <= share * mc) by (nonlinear_arith)
                requires share >= 0, mc > 0;
            assert(min_extra(cs, left, i) >= 0);
        }
        assert(s3[i] >= 0);
    }
}

impl Layout {
    /// Solve the layout from scratch.
    pub fn solve(&self, area: Rect) -> (r: Vec<Rect>)
        requires
            self.solvable(area),
        ensures
            r@ == self.spec_solve(area),
    {
        let inner = area.inner(self.margin);
        if self.constraints.len() == 0 || inner.is_empty() {
            let mut v: Vec<Rect> = Vec::new();
            v.push(inner);
            assert(v@ =~= seq![inner]);
            return v;
        }
        let total_space: u16 = match self.direction {
            Direction::Vertical => inner.height,
            Direction::Horizontal => inner.width,
        };
        let n = self.constraints.len();
        assert(n <= 65535);
        let sp = self.spacing;
        if n > 1 {
            assert(-2147418112 <= (n - 1) * sp <= 2147352578) by (nonlinear_arith)
                requires 2 <= n <= 65535, -32768 <= sp <= 32767;
        }
        let total_spacing: i32 = if n > 1 { (n as i32 - 1) * self.spacing as i32 } else { 0 };
        let diff: i32 = total_space as i32 - total_spacing;
        let clamped: i32 = if diff < 0 { 0 } else { diff };
        proof { lemma_i32_to_u16(clamped); }
        let available: u16 = clamped as u16;
        assert(available == self.spec_available(area));
        let ghost cs = self.constraints@;
        let ghost avail = available as int;
        let mut sizes = base_sizes(&self.constraints, available);
        proof {
            assert forall|i: int| 0 <= i < cs.len() && is_fill(#[trigger] cs[i]) implies phase_base(cs, avail)[i] == 0 by {}
            lemma_fill_sum(cs, phase_base(cs, avail), avail);
        }
        share_fills(&self.constraints, &mut sizes, available);
        share_mins(&self.constraints, &mut sizes, available);
        proof {
            let s2 = phase_fill(cs, phase_base(cs, avail), avail);
            lemma_min_sum(cs, s2, avail);
            lemma_clamp_shrinks(cs, avail);
        }
        clamp_sizes(&self.constraints, &mut sizes);
        proof {
            let s3 = phase_min(cs, phase_fill(cs, phase_base(cs, avail), avail), avail);
            lemma_sum_pointwise_le(phase_clamp(cs, s3), s3);
            lemma_sum_nonneg(phase_clamp(cs, s3));
        }
        shrink_sizes(&mut sizes, available);
        proof {
            let s4 = phase_clamp(cs, phase_min(cs, phase_fill(cs, phase_base(cs, avail), avail), avail));
            lemma_shrink_sum(s4, avail);
        }
        let r = place(self.direction, inner, self.flex, self.spacing, available, &sizes);
        assert(r@ =~= self.spec_solve(area));
        r
    }

    /// Split into a fixed number of areas; slots beyond the solved segments
    /// are empty rectangles at the origin of `area`.
    pub fn areas<const N: usize>(&self, area: Rect) -> (r: [Rect; N])
        requires
            self.solvable(area),
        ensures
            forall|i: int| 0 <= i < N ==> #[trigger] r@[i] == if i < self.spec_solve(area).len() {
                self.spec_solve(area)[i]
            } else {
                Rect { x: area.x, y: area.y, width: 0, height: 0 }
            },
    {
        let solved = self.split(area);
        let mut out = [Rect::new(area.x, area.y, 0, 0); N];
        let mut i: usize = 0;
        while i < N
            invariant
                i <= N,
                solved@ == self.spec_solve(area),
                forall|j: int| 0 <= j < N ==> #[trigger] out@[j] == if j < i && j < solved@.len() {
                    solved@[j]
                } else {
                    Rect { x: area.x, y: area.y, width: 0, height: 0 }
                },
            decreases N - i,
        {
            if i < solved.len() {
                out[i] = solved[i];
            }
            i = i + 1;
        }
        out
    }

    /// Split the given area into segments according to the constraints.
    pub fn split(&self, area: Rect) -> (r: Vec<Rect>)
        requires
            self.solvable(area),
        ensures
            r@ == self.spec_solve(area),
    {
        self.solve(area)
    }
}

/// Splitting keeps no state between calls: what a layout splits an area
/// into depends only on its direction, constraints, margin, flex and
/// spacing and on the area, so two layouts that agree on these split every
/// area alike, and `split` gives what `solve` gives.
pub proof fn lemma_split_depends_only_on_settings(a: &Layout, b: &Layout, area: Rect)
    requires
        a.spec_direction() == b.spec_direction(),
        a.spec_constraints() == b.spec_constraints(),
        a.spec_margin() == b.spec_margin(),
        a.spec_flex() == b.spec_flex(),
        a.spec_spacing() == b.spec_spacing(),
    ensures
        a.spec_solve(area) == b.spec_solve(area),
{
}

/// The segments the solver hands out never add up to more than the space
/// available for them.
pub proof fn lemma_sizes_fit_available(cs: Seq<Constraint>, avail: int)
    requires
        cs.len() > 0,
        0 <= avail <= 65535,
        sum(phase_base(cs, avail)) <= 65535,
    ensures
        sum(plan_sizes(cs, avail)) <= avail,
{
    let s1 = phase_base(cs, avail);
    let s2 = phase_fill(cs, s1, avail);
    let s3 = phase_min(cs, s2, avail);
    let s4 = phase_clamp(cs, s3);
    assert forall|i: int| 0 <= i < cs.len() && is_fill(#[trigger] cs[i]) implies s1[i] == 0 by {}
    lemma_fill_sum(cs, s1, avail);
    lemma_min_sum(cs, s2, avail);
    lemma_shrink_sum(s4, avail);
}

/// With no spacing and segments packed at the start, each segment begins
/// exactly where the previous one ends.
#[verifier::spinoff_prover]
#[verifier::rlimit(50)]
pub proof fn lemma_segments_abut(l: Layout, area: Rect, i: int)
    requires
        l.spec_spacing() == 0,
        l.spec_flex() == Flex::Start,
        0 <= i < l.spec_solve(area).len() - 1,
        l.spec_constraints().len() > 0,
        l.spec_inner(area).width > 0,
        l.spec_inner(area).height > 0,
        l.solvable(area),
    ensures
        ({
            let r = l.spec_solve(area);
            match l.spec_direction() {
                Direction::Vertical => r[i + 1].y == sat_add(r[i].y as int, r[i].height as int),
                Direction::Horizontal => r[i + 1].x == sat_add(r[i].x as int, r[i].width as int),
            }
        }),
{
    let cs = l.spec_constraints();
    let avail = l.spec_available(area);
    let sizes = plan_sizes(cs, avail);
    let inner = l.spec_inner(area);
    let origin = match l.spec_direction() {
        Direction::Vertical => inner.y as int,
        Direction::Horizontal => inner.x as int,
    };
    let excess = sat_sub(avail, sum(sizes));
    lemma_plan_sizes_range(l, area);
    lemma_seg_pos_range(origin, sizes, i);
}

proof fn lemma_seg_pos_range(start: int, s: Seq<int>, i: int)
    requires
        0 <= start <= 65535,
        0 <= i <= s.len(),
        forall|j: int| 0 <= j < s.len() ==> 0 <= #[trigger] s[j] <= 65535,
    ensures
        0 <= seg_pos(start, s, 0, 0, 0, i) <= 65535,
    decreases i,
{
    if i > 0 {
        lemma_seg_pos_range(start, s, i - 1);
    }
}

proof fn lemma_plan_sizes_range(l: Layout, area: Rect)
    requires
        l.solvable(area),
        l.spec_constraints().len() > 0,
        l.spec_inner(area).width > 0,
        l.spec_inner(area).height > 0,
    ensures
        forall|j: int| 0 <= j < l.spec_constraints().len() ==> 0 <= #[trigger] plan_sizes(l.spec_constraints(), l.spec_available(area))[j] <= 65535,
{
    let cs = l.spec_constraints();
    let avail = l.spec_available(area);
    let s1 = phase_base(cs, avail);
    let s2 = phase_fill(cs, s1, avail);
    let s3 = phase_min(cs, s2, avail);
    let s4 = phase_clamp(cs, s3);
    let n = cs.len() as int;
    assert forall|i: int| 0 <= i < cs.len() && is_fill(#[trigger] cs[i]) implies s1[i] == 0 by {}
    lemma_fill_sum(cs, s1, avail);
    lemma_min_sum(cs, s2, avail);
    lemma_clamp_shrinks(cs, avail);
    lemma_sum_pointwise_le(s4, s3);
    assert forall|j: int| 0 <= j < n implies 0 <= #[trigger] plan_sizes(cs, avail)[j] <= 65535 by {
        lemma_sum_single_le(s4, j);
        if sum(s4) > avail {
            if j == n - 1 {
                lemma_shrunk_prefix_mono(s4, avail, sum(s4), j, n - 1);
            } else {
                lemma_float_scaled_range(s4[j], avail, sum(s4));
            }
        }
    }
}

/// With no spacing and no gaps, each segment starts where those before it
/// end, as long as nothing runs past the `u16` range.
proof fn lemma_seg_pos_packed(start: int, s: Seq<int>, i: int)
    requires
        0 <= start,
        0 <= i <= s.len(),
        forall|j: int| 0 <= j < s.len() ==> 0 <= #[trigger] s[j] <= 65535,
        start + sum(s) <= 65535,
    ensures
        seg_pos(start, s, 0, 0, 0, i) == start + sum(s.take(i)),
    decreases i,
{
    if i > 0 {
        lemma_seg_pos_packed(start, s, i - 1);
        lemma_sum_take_step(s, i - 1);
        lemma_sum_prefix_le(s, i);
    } else {
        assert(s.take(0) =~= Seq::<int>::empty());
    }
}

/// `Flex::End` packs the segments against the end of the area: the first
/// starts after all the room they leave free, and, with no spacing between
/// them, the last ends exactly where the area (less its margin) ends.
#[verifier::spinoff_prover]
#[verifier::rlimit(50)]
pub proof fn lemma_flex_end_packs_at_end(l: Layout, area: Rect)
    requires
        l.spec_flex() == Flex::End,
        l.spec_constraints().len() > 0,
        l.spec_inner(area).width > 0,
        l.spec_inner(area).height > 0,
        l.solvable(area),
    ensures
        ({
            let r = l.spec_solve(area);
            let inner = l.spec_inner(area);
            let avail = l.spec_available(area);
            let used = sum(plan_sizes(l.spec_constraints(), avail));
            &&& used <= avail
            &&& match l.spec_direction() {
                Direction::Horizontal => r[0].x == inner.x + (avail - used),
                Direction::Vertical => r[0].y == inner.y + (avail - used),
            }
        }),
        ({
            let r = l.spec_solve(area);
            let inner = l.spec_inner(area);
            l.spec_spacing() == 0 ==> match l.spec_direction() {
                Direction::Horizontal => inner.x + inner.width <= 65535 ==> r.last().x + r.last().width == inner.x
                    + inner.width,
                Direction::Vertical => inner.y + inner.height <= 65535 ==> r.last().y + r.last().height == inner.y
                    + inner.height,
            }
        }),
{
    let cs = l.spec_constraints();
    let n = cs.len() as int;
    let avail = l.spec_available(area);
    let sizes = plan_sizes(cs, avail);
    let inner = l.spec_inner(area);
    let origin = match l.spec_direction() {
        Direction::Vertical => inner.y as int,
        Direction::Horizontal => inner.x as int,
    };
    lemma_sizes_fit_available(cs, avail);
    lemma_plan_sizes_range(l, area);
    let excess = sat_sub(avail, sum(sizes));
    assert(excess == avail - sum(sizes));
    if l.spec_spacing() == 0 {
        let total = l.spec_total_space(area);
        if origin + total <= 65535 {
            assert(avail == total);
            lemma_seg_pos_packed(origin + excess, sizes, n - 1);
            lemma_sum_take_step(sizes, n - 1);
            lemma_sum_take_all(sizes);
        }
    }
}

/// Where the first segment starts, for each way of sharing out the room the
/// segments leave free (`free`): at the start of the area for `Start` and
/// `SpaceBetween`, half the free room in for `Center`, after all of it for
/// `End`, after half a gap (a `2n`-th) for `SpaceAround`, and after one gap
/// (an `(n+1)`-th) for `SpaceEvenly`.
#[verifier::spinoff_prover]
pub proof fn lemma_first_segment_offset(l: Layout, area: Rect)
    requires
        l.spec_constraints().len() > 0,
        l.spec_inner(area).width > 0,
        l.spec_inner(area).height > 0,
        l.solvable(area),
    ensures
        ({
            let r = l.spec_solve(area);
            let inner = l.spec_inner(area);
            let n = l.spec_constraints().len() as int;
            let avail = l.spec_available(area);
            let free = avail - sum(plan_sizes(l.spec_constraints(), avail));
            let lead = match l.spec_flex() {
                Flex::Start => 0,
                Flex::Center => free / 2,
                Flex::End => free,
                Flex::SpaceBetween => 0,
                Flex::SpaceAround => free / (2 * n),
                Flex::SpaceEvenly => free / (n + 1),
            };
            &&& 0 <= free
            &&& match l.spec_direction() {
                Direction::Horizontal => r[0].x == inner.x + lead,
                Direction::Vertical => r[0].y == inner.y + lead,
            }
        }),
{
    let cs = l.spec_constraints();
    let avail = l.spec_available(area);
    lemma_sizes_fit_available(cs, avail);
    lemma_plan_sizes_range(l, area);
}

/// With no spacing, segment `i` starts after the segments before it and
/// the gaps between them: `base` after each, and one more after each of the
/// first `extra`, as long as nothing runs past the `u16` range.
proof fn lemma_seg_pos_gapped(start: int, s: Seq<int>, base: int, extra: int, i: int)
    requires
        0 <= start,
        0 <= base,
        0 <= extra,
        s.len() > 0,
        0 <= i < s.len(),
        forall|j: int| 0 <= j < s.len() ==> 0 <= #[trigger] s[j] <= 65535,
        start + sum(s) + (s.len() - 1) * base + min_int(s.len() - 1, extra) <= 65535,
    ensures
        seg_pos(start, s, 0, base, extra, i) == start + sum(s.take(i)) + i * base + min_int(i, extra),
    decreases i,
{
    let n = s.len() as int;
    if i > 0 {
        lemma_seg_pos_gapped(start, s, base, extra, i - 1);
        lemma_sum_take_step(s, i - 1);
        lemma_sum_prefix_le(s, i);
        assert(i * base <= (n - 1) * base) by (nonlinear_arith)
            requires
                i <= n - 1,
                base >= 0,
        ;
        assert(i * base == (i - 1) * base + base) by (nonlinear_arith);
    } else {
        assert(s.take(0) =~= Seq::<int>::empty());
    }
}

/// `Flex::SpaceBetween` keeps both outer edges flush: with two or more
/// segments and no spacing, the first starts where the area (less its
/// margin) starts and the last ends where it ends.
#[verifier::spinoff_prover]
#[verifier::rlimit(50)]
pub proof fn lemma_space_between_flush(l: Layout, area: Rect)
    requires
        l.spec_flex() == Flex::SpaceBetween,
        l.spec_spacing() == 0,
        l.spec_constraints().len() >= 2,
        l.spec_inner(area).width > 0,
        l.spec_inner(area).height > 0,
        l.solvable(area),
    ensures
        ({
            let r = l.spec_solve(area);
            let inner = l.spec_inner(area);
            match l.spec_direction() {
                Direction::Horizontal => r[0].x == inner.x && (inner.x + inner.width <= 65535 ==> r.last().x
                    + r.last().width == inner.x + inner.width),
                Direction::Vertical => r[0].y == inner.y && (inner.y + inner.height <= 65535 ==> r.last().y
                    + r.last().height == inner.y + inner.height),
            }
        }),
{
    let cs = l.spec_constraints();
    let n = cs.len() as int;
    let avail = l.spec_available(area);
    let sizes = plan_sizes(cs, avail);
    let inner = l.spec_inner(area);
    let origin = match l.spec_direction() {
        Direction::Vertical => inner.y as int,
        Direction::Horizontal => inner.x as int,
    };
    lemma_sizes_fit_available(cs, avail);
    lemma_plan_sizes_range(l, area);
    let excess = avail - sum(sizes);
    let base = excess / (n - 1);
    let extra = excess % (n - 1);
    assert((n - 1) * base + extra == excess && 0 <= extra < n - 1 && base >= 0) by (nonlinear_arith)
        requires
            n >= 2,
            excess >= 0,
            base == excess / (n - 1),
            extra == excess % (n - 1),
    ;
    let total = l.spec_total_space(area);
    if origin + total <= 65535 {
        assert(avail == total);
        lemma_seg_pos_gapped(origin, sizes, base, extra, n - 1);
        lemma_sum_take_step(sizes, n - 1);
        lemma_sum_take_all(sizes);
    }
}

/// With no spacing, how much of the free room is left after the last
/// segment, for each way of sharing it out: all of it for `Start`, the
/// larger half for `Center`, none for `End` (nor for `SpaceBetween` with two
/// or more segments), and for `SpaceAround` and `SpaceEvenly` the room left
/// by the leading gap and the gaps between segments.
#[verifier::spinoff_prover]
#[verifier::rlimit(80)]
pub proof fn lemma_room_after_last_segment(l: Layout, area: Rect)
    requires
        l.spec_spacing() == 0,
        l.spec_constraints().len() > 0,
        l.spec_inner(area).width > 0,
        l.spec_inner(area).height > 0,
        l.solvable(area),
        match l.spec_direction() {
            Direction::Horizontal => l.spec_inner(area).x + l.spec_inner(area).width <= 65535,
            Direction::Vertical => l.spec_inner(area).y + l.spec_inner(area).height <= 65535,
        },
    ensures
        ({
            let r = l.spec_solve(area);
            let inner = l.spec_inner(area);
            let n = l.spec_constraints().len() as int;
            let avail = l.spec_available(area);
            let free = avail - sum(plan_sizes(l.spec_constraints(), avail));
            let after = match l.spec_direction() {
                Direction::Horizontal => (inner.x + inner.width) - (r.last().x + r.last().width),
                Direction::Vertical => (inner.y + inner.height) - (r.last().y + r.last().height),
            };
            after == match l.spec_flex() {
                Flex::Start => free,
                Flex::Center => free - free / 2,
                Flex::End => 0,
                Flex::SpaceBetween => if n >= 2 { 0 } else { free },
                Flex::SpaceAround => free - (2 * n - 1) * (free / (2 * n)),
                Flex::SpaceEvenly => free - n * (free / (n + 1)),
            }
        }),
{
    let cs = l.spec_constraints();
    let n = cs.len() as int;
    let avail = l.spec_available(area);
    let sizes = plan_sizes(cs, avail);
    let inner = l.spec_inner(area);
    let origin = match l.spec_direction() {
        Direction::Vertical => inner.y as int,
        Direction::Horizontal => inner.x as int,
    };
    lemma_sizes_fit_available(cs, avail);
    lemma_plan_sizes_range(l, area);
    let excess = avail - sum(sizes);
    assert(avail == l.spec_total_space(area));
    let (start, base, extra) = flex_params(l.spec_flex(), excess, n);
    match l.spec_flex() {
        Flex::Start => {},
        Flex::Center => {
            assert(0 <= excess / 2 <= excess) by (nonlinear_arith)
                requires
                    excess >= 0,
            ;
        },
        Flex::End => {},
        Flex::SpaceBetween => {
            if n >= 2 {
                assert((n - 1) * base + extra == excess && 0 <= extra < n - 1 && base >= 0) by (nonlinear_arith)
                    requires
                        n >= 2,
                        excess >= 0,
                        base == excess / (n - 1),
                        extra == excess % (n - 1),
                ;
            }
        },
        Flex::SpaceAround => {
            let half = excess / (2 * n);
            assert(half >= 0 && (2 * n) * half <= excess) by (nonlinear_arith)
                requires
                    n >= 1,
                    excess >= 0,
                    half == excess / (2 * n),
            ;
            assert(half + (n - 1) * (2 * half) == (2 * n - 1) * half) by (nonlinear_arith);
            assert((2 * n - 1) * half <= (2 * n) * half) by (nonlinear_arith)
                requires
                    half >= 0,
            ;
        },
        Flex::SpaceEvenly => {
            let unit = excess / (n + 1);
            assert(unit >= 0 && (n + 1) * unit <= excess) by (nonlinear_arith)
                requires
                    n >= 1,
                    excess >= 0,
                    unit == excess / (n + 1),
            ;
            assert(unit + (n - 1) * unit == n * unit) by (nonlinear_arith);
            assert(n * unit <= (n + 1) * unit) by (nonlinear_arith)
                requires
                    unit >= 0,
            ;
        },
    }
    assert(min_int(n - 1, extra) == extra || extra == 0);
    lemma_seg_pos_gapped(origin + start, sizes, base, extra, n - 1);
    lemma_sum_take_step(sizes, n - 1);
    lemma_sum_take_all(sizes);
}

} // verus!
