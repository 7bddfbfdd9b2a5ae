//! Rectangles, positions, margins and sizes in terminal coordinates.
use vstd::prelude::*;

verus! {

/// `a + b` clamped to the `u16` range, as `u16::saturating_add` computes it.
pub open spec fn sat_add(a: int, b: int) -> int {
    if a + b > 65535 { 65535 } else { a + b }
}

/// `a - b` clamped at zero, as `u16::saturating_sub` computes it.
pub open spec fn sat_sub(a: int, b: int) -> int {
    if a - b < 0 { 0 } else { a - b }
}

pub open spec fn min_int(a: int, b: int) -> int {
    if a <= b { a } else { b }
}

pub open spec fn max_int(a: int, b: int) -> int {
    if a >= b { a } else { b }
}

/// A position in terminal coordinates.
#[derive(Debug, Clone, Copy, PartialEq, Eq, Hash, Default, Structural)]
pub struct Position {
    pub x: u16,
    pub y: u16,
}

impl Position {
    pub fn new(x: u16, y: u16) -> (r: Self)
        ensures
            r.x == x,
            r.y == y,
    {
        Position { x, y }
    }
}

/// A displacement in terminal coordinates.
#[derive(Debug, Clone, Copy, PartialEq, Eq, Hash, Default, Structural)]
pub struct Offset {
    pub x: i16,
    pub y: i16,
}

/// Margin/padding specification.
#[derive(Debug, Clone, Copy, PartialEq, Eq, Hash, Default, Structural)]
pub struct Margin {
    pub top: u16,
    pub right: u16,
    pub bottom: u16,
    pub left: u16,
}

impl Margin {
    /// The margin of zero on every side.
    #[allow(non_snake_case)]
    pub fn ZERO() -> (r: Self)
        ensures
            r.top == 0 && r.right == 0 && r.bottom == 0 && r.left == 0,
    {
        Margin { top: 0, right: 0, bottom: 0, left: 0 }
    }

    /// Uniform margin on all sides.
    pub fn uniform(value: u16) -> (r: Self)
        ensures
            r.top == value && r.right == value && r.bottom == value && r.left == value,
    {
        Margin { top: value, right: value, bottom: value, left: value }
    }

    /// Symmetric margin (vertical, horizontal).
    pub fn symmetric(vertical: u16, horizontal: u16) -> (r: Self)
        ensures
            r.top == vertical && r.bottom == vertical,
            r.left == horizontal && r.right == horizontal,
    {
        Margin { top: vertical, right: horizontal, bottom: vertical, left: horizontal }
    }

    /// Individual sides.
    pub fn new(top: u16, right: u16, bottom: u16, left: u16) -> (r: Self)
        ensures
            r.top == top && r.right == right && r.bottom == bottom && r.left == left,
    {
        Margin { top, right, bottom, left }
    }
}

/// Size in columns and rows.
#[derive(Debug, Clone, Copy, PartialEq, Eq, Hash, Default, Structural)]
pub struct Size {
    pub width: u16,
    pub height: u16,
}

impl Size {
    pub fn new(width: u16, height: u16) -> (r: Self)
        ensures
            r.width == width && r.height == height,
    {
        Size { width, height }
    }
}

/// A rectangular area in terminal coordinates; the top-left cell is (0, 0).
#[derive(Debug, Clone, Copy, PartialEq, Eq, Hash, Default, Structural)]
pub struct Rect {
    pub x: u16,
    pub y: u16,
    pub width: u16,
    pub height: u16,
}

impl Rect {
    /// A rectangle from its position and size.
    pub open spec fn new_spec(x: u16, y: u16, width: u16, height: u16) -> Rect {
        Rect { x, y, width, height }
    }

    /// The exclusive right edge, saturating at the top of the `u16` range.
    pub open spec fn spec_right(self) -> int {
        sat_add(self.x as int, self.width as int)
    }

    /// The exclusive bottom edge, saturating at the top of the `u16` range.
    pub open spec fn spec_bottom(self) -> int {
        sat_add(self.y as int, self.height as int)
    }

    /// Whether the cell `(px, py)` lies inside this rectangle.
    pub open spec fn spec_contains(self, px: int, py: int) -> bool {
        self.x <= px < self.spec_right() && self.y <= py < self.spec_bottom()
    }

    pub open spec fn spec_intersection(self, other: Rect) -> Rect {
        let x = max_int(self.x as int, other.x as int);
        let y = max_int(self.y as int, other.y as int);
        let right = min_int(self.spec_right(), other.spec_right());
        let bottom = min_int(self.spec_bottom(), other.spec_bottom());
        Rect {
            x: x as u16,
            y: y as u16,
            width: sat_sub(right, x) as u16,
            height: sat_sub(bottom, y) as u16,
        }
    }

    pub open spec fn spec_union(self, other: Rect) -> Rect {
        let x = min_int(self.x as int, other.x as int);
        let y = min_int(self.y as int, other.y as int);
        let right = max_int(self.spec_right(), other.spec_right());
        let bottom = max_int(self.spec_bottom(), other.spec_bottom());
        Rect {
            x: x as u16,
            y: y as u16,
            width: sat_sub(right, x) as u16,
            height: sat_sub(bottom, y) as u16,
        }
    }

    pub open spec fn spec_inner(self, m: Margin) -> Rect {
        Rect {
            x: sat_add(self.x as int, m.left as int) as u16,
            y: sat_add(self.y as int, m.top as int) as u16,
            width: sat_sub(self.width as int, sat_add(m.left as int, m.right as int)) as u16,
            height: sat_sub(self.height as int, sat_add(m.top as int, m.bottom as int)) as u16,
        }
    }

    /// The rectangle at the origin with no area.
    #[allow(non_snake_case)]
    pub fn ZERO() -> (r: Self)
        ensures
            r.x == 0 && r.y == 0 && r.width == 0 && r.height == 0,
    {
        Rect { x: 0, y: 0, width: 0, height: 0 }
    }

    pub fn new(x: u16, y: u16, width: u16, height: u16) -> (r: Self)
        ensures
            r.x == x && r.y == y && r.width == width && r.height == height,
    {
        Rect { x, y, width, height }
    }

    /// Total number of cells in this rectangle.
    pub fn area(&self) -> (r: u32)
        ensures
            r == self.width * self.height,
    {
        assert(self.width * self.height <= 65535 * 65535) by (nonlinear_arith)
            requires
                self.width <= 65535,
                self.height <= 65535,
        ;
        self.width as u32 * self.height as u32
    }

    /// Whether this rectangle has zero area.
    pub fn is_empty(&self) -> (r: bool)
        ensures
            r == (self.width == 0 || self.height == 0),
    {
        self.width == 0 || self.height == 0
    }

    /// The leftmost column.
    pub fn left(&self) -> (r: u16)
        ensures
            r == self.x,
    {
        self.x
    }

    /// The rightmost column (exclusive).
    pub fn right(&self) -> (r: u16)
        ensures
            r == self.spec_right(),
    {
        self.x.saturating_add(self.width)
    }

    /// The topmost row.
    pub fn top(&self) -> (r: u16)
        ensures
            r == self.y,
    {
        self.y
    }

    /// The bottommost row (exclusive).
    pub fn bottom(&self) -> (r: u16)
        ensures
            r == self.spec_bottom(),
    {
        self.y.saturating_add(self.height)
    }

    /// The center position.
    pub fn center(&self) -> (r: Position)
        ensures
            r.x == sat_add(self.x as int, (self.width / 2) as int),
            r.y == sat_add(self.y as int, (self.height / 2) as int),
    {
        Position { x: self.x.saturating_add(self.width / 2), y: self.y.saturating_add(self.height / 2) }
    }

    /// Returns the intersection of two rectangles.
    pub fn intersection(&self, other: Rect) -> (r: Rect)
        ensures
            r == self.spec_intersection(other),
    {
        let x = if self.x >= other.x { self.x } else { other.x };
        let y = if self.y >= other.y { self.y } else { other.y };
        let (sr, orr) = (self.right(), other.right());
        let (sb, ob) = (self.bottom(), other.bottom());
        let right = if sr <= orr { sr } else { orr };
        let bottom = if sb <= ob { sb } else { ob };
        Rect { x, y, width: right.saturating_sub(x), height: bottom.saturating_sub(y) }
    }

    /// Returns the smallest rectangle that contains both.
    pub fn union(&self, other: Rect) -> (r: Rect)
        ensures
            r == self.spec_union(other),
    {
        let x = if self.x <= other.x { self.x } else { other.x };
        let y = if self.y <= other.y { self.y } else { other.y };
        let (sr, orr) = (self.right(), other.right());
        let (sb, ob) = (self.bottom(), other.bottom());
        let right = if sr >= orr { sr } else { orr };
        let bottom = if sb >= ob { sb } else { ob };
        Rect { x, y, width: right.saturating_sub(x), height: bottom.saturating_sub(y) }
    }

    /// Whether this rectangle contains a position.
    pub fn contains(&self, pos: Position) -> (r: bool)
        ensures
            r == self.spec_contains(pos.x as int, pos.y as int),
    {
        pos.x >= self.x && pos.x < self.right() && pos.y >= self.y && pos.y < self.bottom()
    }

    /// The rectangle shrunk by `margin` on each side.
    pub fn inner(&self, margin: Margin) -> (r: Rect)
        ensures
            r == self.spec_inner(margin),
    {
        let x = self.x.saturating_add(margin.left);
        let y = self.y.saturating_add(margin.top);
        let width = self.width.saturating_sub(margin.left.saturating_add(margin.right));
        let height = self.height.saturating_sub(margin.top.saturating_add(margin.bottom));
        Rect { x, y, width, height }
    }

    /// All positions of this rectangle, row by row.
    pub fn positions(&self) -> (r: Vec<Position>)
        ensures
            r@.len() == (self.spec_bottom() - self.y) * (self.spec_right() - self.x),
            forall|i: int|
                0 <= i < r@.len() ==> {
                    &&& #[trigger] r@[i].y == self.y + i / (self.spec_right() - self.x)
                    &&& r@[i].x == self.x + i % (self.spec_right() - self.x)
                },
    {
        let right = self.right();
        let bottom = self.bottom();
        let ghost w = right - self.x;
        let mut out: Vec<Position> = Vec::new();
        let mut y = self.y;
        while y < bottom
            invariant
                self.y <= y <= bottom,
                right == self.spec_right(),
                bottom == self.spec_bottom(),
                w == right - self.x,
                w >= 0,
                out@.len() == (y - self.y) * w,
                forall|i: int|
                    0 <= i < out@.len() ==> {
                        &&& #[trigger] out@[i].y == self.y + i / w
                        &&& out@[i].x == self.x + i % w
                    },
            decreases bottom - y,
        {
            let mut x = self.x;
            let ghost base = out@.len();
            while x < right
                invariant
                    self.x <= x <= right,
                    self.y <= y < bottom,
                    right == self.spec_right(),
                    w == right - self.x,
                    base == (y - self.y) * w,
                    out@.len() == base + (x - self.x),
                    forall|i: int|
                        0 <= i < out@.len() ==> {
                            &&& #[trigger] out@[i].y == self.y + i / w
                            &&& out@[i].x == self.x + i % w
                        },
                decreases right - x,
            {
                proof {
                    let i = out@.len() as int;
                    let k = (y - self.y) as int;
                    let j = (x - self.x) as int;
                    assert(i == k * w + j);
                    assert(0 <= j < w);
                    assert(i / w == k && i % w == j) by (nonlinear_arith)
                        requires i == k * w + j, 0 <= j < w, k >= 0;
                }
                out.push(Position { x, y });
                x = x + 1;
            }
            proof {
                assert((y - self.y) * w + w == (y + 1 - self.y) * w) by (nonlinear_arith);
            }
            y = y + 1;
        }
        out
    }

    /// Row indices of this rectangle.
    pub fn rows(&self) -> (r: std::ops::Range<u16>)
        ensures
            r.start == self.y,
            r.end == self.spec_bottom(),
    {
        self.y..self.bottom()
    }

    /// Column indices of this rectangle.
    pub fn columns(&self) -> (r: std::ops::Range<u16>)
        ensures
            r.start == self.x,
            r.end == self.spec_right(),
    {
        self.x..self.right()
    }
}

impl Size {
    /// The size of a rectangle.
    pub fn of_rect(rect: Rect) -> (r: Size)
        ensures
            r.width == rect.width && r.height == rect.height,
    {
        Size { width: rect.width, height: rect.height }
    }
}

/// A position lies in the intersection of two rectangles exactly when it
/// lies in both of them.
pub proof fn lemma_intersection_contains(a: Rect, b: Rect, px: int, py: int)
    ensures
        a.spec_intersection(b).spec_contains(px, py) <==> (a.spec_contains(px, py)
            && b.spec_contains(px, py)),
{
}

/// Intersection does not depend on the order of its arguments.
pub proof fn lemma_intersection_commutes(a: Rect, b: Rect)
    ensures
        a.spec_intersection(b) == b.spec_intersection(a),
{
}

/// Every position of either rectangle lies in their union.
pub proof fn lemma_union_covers(a: Rect, b: Rect, px: int, py: int)
    requires
        a.spec_contains(px, py) || b.spec_contains(px, py),
    ensures
        a.spec_union(b).spec_contains(px, py),
{
}

} // verus!
