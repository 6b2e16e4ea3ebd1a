//! Integer rectangles in window coordinates.
//!
//! Damage tracking and input regions both speak whole pixels. A rectangle is
//! half-open: it covers the pixels `x <= px < x + width` and
//! `y <= py < y + height`, and it is empty when either extent is not positive.

use vstd::prelude::*;

verus! {

/// True when `v` fits in an `i32`.
pub open spec fn fits_i32(v: int) -> bool {
    i32::MIN <= v <= i32::MAX
}

pub open spec fn max_int(a: int, b: int) -> int {
    if a >= b { a } else { b }
}

pub open spec fn min_int(a: int, b: int) -> int {
    if a <= b { a } else { b }
}

#[derive(Debug, Clone, Copy, PartialEq, Eq, Structural)]
pub struct IRect {
    pub x: i32,
    pub y: i32,
    pub width: i32,
    pub height: i32,
}

impl IRect {
    /// The empty rectangle at the origin.
    pub fn empty() -> (r: IRect)
        ensures
            r == (IRect { x: 0, y: 0, width: 0, height: 0 }),
    {
        IRect { x: 0, y: 0, width: 0, height: 0 }
    }

    /// Right edge (exclusive), as a mathematical integer.
    pub open spec fn right_spec(self) -> int {
        self.x + self.width
    }

    /// Bottom edge (exclusive), as a mathematical integer.
    pub open spec fn bottom_spec(self) -> int {
        self.y + self.height
    }

    pub open spec fn empty_spec(self) -> bool {
        self.width <= 0 || self.height <= 0
    }

    /// Both far edges are representable.
    pub open spec fn edges_fit(self) -> bool {
        fits_i32(self.right_spec()) && fits_i32(self.bottom_spec())
    }

    /// The pixel `(px, py)` lies inside the rectangle.
    pub open spec fn covers(self, px: int, py: int) -> bool {
        self.x <= px < self.right_spec() && self.y <= py < self.bottom_spec()
    }

    /// The rectangle `new` builds: negative extents collapse to zero.
    pub open spec fn new_spec(x: i32, y: i32, width: i32, height: i32) -> IRect {
        IRect {
            x,
            y,
            width: if width < 0 { 0 } else { width },
            height: if height < 0 { 0 } else { height },
        }
    }

    /// The bounding box of two non-empty rectangles, or the non-empty one.
    pub open spec fn union_spec(self, other: IRect) -> IRect {
        if self.empty_spec() {
            other
        } else if other.empty_spec() {
            self
        } else {
            let x = min_int(self.x as int, other.x as int);
            let y = min_int(self.y as int, other.y as int);
            IRect {
                x: x as i32,
                y: y as i32,
                width: (max_int(self.right_spec(), other.right_spec()) - x) as i32,
                height: (max_int(self.bottom_spec(), other.bottom_spec()) - y) as i32,
            }
        }
    }

    /// When both rectangles are non-empty, their edges and their bounding
    /// box fit in `i32`. With an empty one, `union` does no arithmetic.
    pub open spec fn union_fits(self, other: IRect) -> bool {
        !self.empty_spec() && !other.empty_spec() ==> {
            let x = min_int(self.x as int, other.x as int);
            let y = min_int(self.y as int, other.y as int);
            &&& self.edges_fit()
            &&& other.edges_fit()
            &&& fits_i32(max_int(self.right_spec(), other.right_spec()) - x)
            &&& fits_i32(max_int(self.bottom_spec(), other.bottom_spec()) - y)
        }
    }

    pub open spec fn inflate_spec(self, by: i32) -> IRect {
        if self.empty_spec() {
            self
        } else {
            IRect::new_spec(
                (self.x - by) as i32,
                (self.y - by) as i32,
                (self.width + 2 * by) as i32,
                (self.height + 2 * by) as i32,
            )
        }
    }

    pub open spec fn inflate_fits(self, by: i32) -> bool {
        !self.empty_spec() ==> {
            &&& fits_i32(self.x - by)
            &&& fits_i32(self.y - by)
            &&& fits_i32(2 * by)
            &&& fits_i32(self.width + 2 * by)
            &&& fits_i32(self.height + 2 * by)
        }
    }

    /// The clipped extents are representable.
    pub open spec fn clamp_fits(self, width: i32, height: i32) -> bool {
        &&& self.edges_fit()
        &&& fits_i32(min_int(self.right_spec(), width as int) - max_int(self.x as int, 0))
        &&& fits_i32(min_int(self.bottom_spec(), height as int) - max_int(self.y as int, 0))
    }

    pub open spec fn clamp_spec(self, width: i32, height: i32) -> IRect {
        let x = max_int(self.x as int, 0);
        let y = max_int(self.y as int, 0);
        let right = min_int(self.right_spec(), width as int);
        let bottom = min_int(self.bottom_spec(), height as int);
        IRect::new_spec(x as i32, y as i32, (right - x) as i32, (bottom - y) as i32)
    }

    pub fn new(x: i32, y: i32, width: i32, height: i32) -> (r: IRect)
        ensures
            r == IRect::new_spec(x, y, width, height),
    {
        IRect {
            x,
            y,
            width: if width < 0 { 0 } else { width },
            height: if height < 0 { 0 } else { height },
        }
    }

    pub fn is_empty(&self) -> (r: bool)
        ensures
            r == self.empty_spec(),
    {
        self.width <= 0 || self.height <= 0
    }

    pub fn right(&self) -> (r: i32)
        requires
            fits_i32(self.right_spec()),
        ensures
            r == self.right_spec(),
    {
        self.x + self.width
    }

    pub fn bottom(&self) -> (r: i32)
        requires
            fits_i32(self.bottom_spec()),
        ensures
            r == self.bottom_spec(),
    {
        self.y + self.height
    }

    /// Whether the pixel `(px, py)` is inside. Half-open on the far edges.
    pub fn contains_pixel(&self, px: i32, py: i32) -> (r: bool)
        requires
            self.edges_fit(),
        ensures
            r == self.covers(px as int, py as int),
    {
        px >= self.x && px < self.right() && py >= self.y && py < self.bottom()
    }

    pub fn union(&self, other: &IRect) -> (r: IRect)
        requires
            self.union_fits(*other),
        ensures
            r == self.union_spec(*other),
    {
        if self.is_empty() {
            return *other;
        }
        if other.is_empty() {
            return *self;
        }
        let x = if self.x <= other.x { self.x } else { other.x };
        let y = if self.y <= other.y { self.y } else { other.y };
        let (sr, or) = (self.right(), other.right());
        let (sb, ob) = (self.bottom(), other.bottom());
        let right = if sr >= or { sr } else { or };
        let bottom = if sb >= ob { sb } else { ob };
        IRect::new(x, y, right - x, bottom - y)
    }

    /// Grow by `by` pixels on every side. An empty rect stays empty.
    pub fn inflate(&self, by: i32) -> (r: IRect)
        requires
            self.inflate_fits(by),
        ensures
            r == self.inflate_spec(by),
    {
        if self.is_empty() {
            return *self;
        }
        IRect::new(self.x - by, self.y - by, self.width + by * 2, self.height + by * 2)
    }

    /// Clip to a window of `width` x `height` at the origin.
    pub fn clamp_to(&self, width: i32, height: i32) -> (r: IRect)
        requires
            self.clamp_fits(width, height),
        ensures
            r == self.clamp_spec(width, height),
    {
        let x = if self.x >= 0 { self.x } else { 0 };
        let y = if self.y >= 0 { self.y } else { 0 };
        let r = self.right();
        let b = self.bottom();
        let right = if r <= width { r } else { width };
        let bottom = if b <= height { b } else { height };
        IRect::new(x, y, right - x, bottom - y)
    }
}

/// A rectangle built by `new` never has a negative extent.
pub proof fn lemma_new_extents_non_negative(x: i32, y: i32, width: i32, height: i32)
    ensures
        IRect::new_spec(x, y, width, height).width >= 0,
        IRect::new_spec(x, y, width, height).height >= 0,
        IRect::new_spec(x, y, width, height).empty_spec() <==> (width <= 0 || height <= 0),
{
}

/// The union of two rectangles covers every pixel of both.
pub proof fn lemma_union_covers_both(a: IRect, b: IRect, px: int, py: int)
    requires
        a.union_fits(b),
        a.covers(px, py) || b.covers(px, py),
    ensures
        a.union_spec(b).covers(px, py),
{
}

/// The union of two non-empty rectangles covers nothing outside their
/// bounding box: it is the smallest rectangle that covers both.
pub proof fn lemma_union_is_tight(a: IRect, b: IRect)
    requires
        a.union_fits(b),
        !a.empty_spec(),
        !b.empty_spec(),
    ensures
        a.union_spec(b).x == min_int(a.x as int, b.x as int),
        a.union_spec(b).y == min_int(a.y as int, b.y as int),
        a.union_spec(b).right_spec() == max_int(a.right_spec(), b.right_spec()),
        a.union_spec(b).bottom_spec() == max_int(a.bottom_spec(), b.bottom_spec()),
{
}

/// An empty rectangle is the identity of `union`, on either side.
pub proof fn lemma_union_with_empty_is_identity(a: IRect, e: IRect)
    requires
        e.empty_spec(),
    ensures
        a.union_spec(e) == (if a.empty_spec() { e } else { a }),
        e.union_spec(a) == a,
{
}

/// The union of two non-empty rectangles does not depend on their order.
pub proof fn lemma_union_commutes(a: IRect, b: IRect)
    requires
        !a.empty_spec(),
        !b.empty_spec(),
    ensures
        a.union_spec(b) == b.union_spec(a),
{
}

/// A clamped rectangle never reaches outside the window, and keeps exactly
/// the pixels of the unclipped rectangle that lie inside it.
pub proof fn lemma_clamp_stays_inside(r: IRect, width: i32, height: i32, px: int, py: int)
    requires
        r.clamp_fits(width, height),
    ensures
        r.clamp_spec(width, height).x >= 0,
        r.clamp_spec(width, height).y >= 0,
        !r.clamp_spec(width, height).empty_spec() ==> r.clamp_spec(width, height).right_spec()
            <= width && r.clamp_spec(width, height).bottom_spec() <= height,
        r.clamp_spec(width, height).covers(px, py) <==> (r.covers(px, py) && 0 <= px < width && 0
            <= py < height),
{
}

/// Inflating a non-empty rectangle by a non-negative amount grows it on
/// every side, so it still covers every pixel it covered before.
pub proof fn lemma_inflate_grows(r: IRect, by: i32, px: int, py: int)
    requires
        r.inflate_fits(by),
        by >= 0,
        r.covers(px, py),
    ensures
        r.inflate_spec(by).covers(px, py),
        !r.empty_spec() ==> r.inflate_spec(by).x == r.x - by && r.inflate_spec(by).right_spec()
            == r.right_spec() + by,
{
}

} // verus!
