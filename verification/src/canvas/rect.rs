use vstd::prelude::*;

verus! {

/// An axis-aligned rectangle: position (`x`, `y`) and extent (`w`, `h`).
/// Its corners are (`x`, `y`) and (`x + w`, `y + h`).
#[derive(Debug, Clone, Copy, PartialEq, Eq, Structural)]
pub struct Rect {
    pub x: i32,
    pub y: i32,
    pub w: i32,
    pub h: i32,
}

impl Rect {
    /// Both far corners are representable.
    pub open spec fn corners_fit(self) -> bool {
        &&& i32::MIN <= self.x + self.w <= i32::MAX
        &&& i32::MIN <= self.y + self.h <= i32::MAX
    }

    pub fn new(x: i32, y: i32, w: i32, h: i32) -> (r: Self)
        ensures
            r == (Rect { x, y, w, h }),
    {
        Rect { x, y, w, h }
    }

    /// Does this rectangle contain the given point? Both corners count as inside.
    pub fn contains_point(self, px: i32, py: i32) -> (r: bool)
        requires
            self.corners_fit(),
        ensures
            r == (self.x <= px <= self.x + self.w && self.y <= py <= self.y + self.h),
    {
        self.x <= px && px <= self.x + self.w && self.y <= py && py <= self.y + self.h
    }

    /// Does this rectangle fully contain the given one?
    pub fn contains_rect(self, other: Rect) -> (r: bool)
        requires
            self.corners_fit(),
            other.corners_fit(),
        ensures
            r == (self.x <= other.x && other.x + other.w <= self.x + self.w
                && self.y <= other.y && other.y + other.h <= self.y + self.h),
    {
        self.x <= other.x && other.x + other.w <= self.x + self.w && self.y <= other.y && other.y
            + other.h <= self.y + self.h
    }

    /// Does this rectangle collide with another? Touching edges do not collide.
    pub fn collides_with_rect(self, other: Rect) -> (r: bool)
        requires
            self.corners_fit(),
            other.corners_fit(),
        ensures
            r == (self.x + self.w > other.x && self.x < other.x + other.w
                && self.y + self.h > other.y && self.y < other.y + other.h),
    {
        self.x + self.w > other.x && self.x < other.x + other.w && self.y + self.h > other.y
            && self.y < other.y + other.h
    }

    /// The smallest rectangle containing both corners sets.
    pub open spec fn union_spec(self, other: Rect) -> Rect {
        let x = if self.x < other.x { self.x } else { other.x };
        let y = if self.y < other.y { self.y } else { other.y };
        let mx = if self.x + self.w > other.x + other.w { self.x + self.w } else { other.x + other.w };
        let my = if self.y + self.h > other.y + other.h { self.y + self.h } else { other.y + other.h };
        Rect { x, y, w: (mx - x) as i32, h: (my - y) as i32 }
    }

    /// The width and height of the union are representable.
    pub open spec fn union_fits(self, other: Rect) -> bool {
        let x = if self.x < other.x { self.x } else { other.x };
        let y = if self.y < other.y { self.y } else { other.y };
        let mx = if self.x + self.w > other.x + other.w { self.x + self.w } else { other.x + other.w };
        let my = if self.y + self.h > other.y + other.h { self.y + self.h } else { other.y + other.h };
        &&& mx - x <= i32::MAX
        &&& my - y <= i32::MAX
    }

    /// Gets the smallest rectangle that contains both this one and another.
    pub fn union(self, other: Rect) -> (r: Rect)
        requires
            self.corners_fit(),
            other.corners_fit(),
            self.union_fits(other),
        ensures
            r == self.union_spec(other),
    {
        let x = if self.x < other.x { self.x } else { other.x };
        let y = if self.y < other.y { self.y } else { other.y };
        let mx = if self.x + self.w > other.x + other.w { self.x + self.w } else { other.x + other.w };
        let my = if self.y + self.h > other.y + other.h { self.y + self.h } else { other.y + other.h };
        Rect { x, y, w: mx - x, h: my - y }
    }
}

/// The union contains both rectangles.
pub proof fn lemma_union_contains(a: Rect, b: Rect)
    requires
        a.corners_fit(),
        b.corners_fit(),
        a.union_fits(b),
        0 <= a.w && 0 <= a.h && 0 <= b.w && 0 <= b.h,
    ensures
        ({
            let u = a.union_spec(b);
            &&& u.x <= a.x && a.x + a.w <= u.x + u.w && u.y <= a.y && a.y + a.h <= u.y + u.h
            &&& u.x <= b.x && b.x + b.w <= u.x + u.w && u.y <= b.y && b.y + b.h <= u.y + u.h
            &&& 0 <= u.w && 0 <= u.h
        }),
{
}

/// The union is the least rectangle holding both: each of its edges is an
/// edge of one of the two rectangles, lying at or beyond that edge of the
/// other; and any rectangle holding both holds the union.
pub proof fn lemma_union_least(a: Rect, b: Rect)
    requires
        a.corners_fit(),
        b.corners_fit(),
        a.union_fits(b),
    ensures
        ({
            let u = a.union_spec(b);
            &&& u.x <= a.x && u.x <= b.x && (u.x == a.x || u.x == b.x)
            &&& u.y <= a.y && u.y <= b.y && (u.y == a.y || u.y == b.y)
            &&& u.x + u.w >= a.x + a.w && u.x + u.w >= b.x + b.w
            &&& (u.x + u.w == a.x + a.w || u.x + u.w == b.x + b.w)
            &&& u.y + u.h >= a.y + a.h && u.y + u.h >= b.y + b.h
            &&& (u.y + u.h == a.y + a.h || u.y + u.h == b.y + b.h)
        }),
        forall|c: Rect|
            c.x <= a.x && c.x <= b.x && c.y <= a.y && c.y <= b.y
            && a.x + a.w <= c.x + c.w && b.x + b.w <= c.x + c.w
            && a.y + a.h <= c.y + c.h && b.y + b.h <= c.y + c.h
            ==> #[trigger] c.x <= a.union_spec(b).x && c.y <= a.union_spec(b).y
                && a.union_spec(b).x + a.union_spec(b).w <= c.x + c.w
                && a.union_spec(b).y + a.union_spec(b).h <= c.y + c.h,
{
}

} // verus!
