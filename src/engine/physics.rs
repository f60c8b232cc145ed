use vstd::prelude::*;

use crate::engine::game::Points;

verus! {

/// Whether the intervals `[a, a + a_len)` and `[b, b + b_len)` overlap; touching ends do not.
pub open spec fn overlap_1d(a: int, a_len: int, b: int, b_len: int) -> bool {
    a < b + b_len && a + a_len > b
}

/// Whether two axis-aligned boxes, given by their smallest corners and extents, overlap on
/// all three axes.
pub open spec fn boxes_overlap(
    a: (int, int, int),
    a_size: (int, int, int),
    b: (int, int, int),
    b_size: (int, int, int),
) -> bool {
    &&& overlap_1d(a.0, a_size.0, b.0, b_size.0)
    &&& overlap_1d(a.1, a_size.1, b.1, b_size.1)
    &&& overlap_1d(a.2, a_size.2, b.2, b_size.2)
}

/// Margin that `out_of_bounds` keeps from every edge of the window.
pub const BOUNDS_MARGIN: i64 = 5;

/// What every collision body offers: an axis-aligned bounding box.
pub trait CollisionObjectCommon {
    spec fn wf(&self) -> bool;

    /// Smallest corner of the bounding box.
    spec fn lo(&self) -> (int, int, int);

    /// Extent of the bounding box along each axis.
    spec fn extent(&self) -> (int, int, int);

    fn coord(&self) -> (r: (i32, i32, i32))
        requires
            self.wf(),
        ensures
            (r.0 as int, r.1 as int, r.2 as int) == self.lo(),
    ;

    fn size(&self) -> (r: (u32, u32, u32))
        requires
            self.wf(),
        ensures
            (r.0 as int, r.1 as int, r.2 as int) == self.extent(),
    ;

    /// Whether the box comes within the margin of the edges of a `width` x `height` window.
    fn out_of_bounds(&self, width: usize, height: usize, _depth: usize) -> (r: bool)
        requires
            self.wf(),
        ensures
            r == (self.lo().0 - BOUNDS_MARGIN < 0 || self.lo().0 + self.extent().0 + BOUNDS_MARGIN
                > width || self.lo().1 - BOUNDS_MARGIN < 0 || self.lo().1 + self.extent().1
                + BOUNDS_MARGIN > height),
    {
        let (x, y, _z) = self.coord();
        let (w, h, _d) = self.size();
        x as i64 - BOUNDS_MARGIN < 0 || x as i128 + w as i128 + BOUNDS_MARGIN as i128 > width as i128
            || y as i64 - BOUNDS_MARGIN < 0 || y as i128 + h as i128 + BOUNDS_MARGIN as i128
            > height as i128
    }
}

/// The bounding box of a set of points.
pub struct PolygonCollision {
    pub points: Points,
}

impl CollisionObjectCommon for PolygonCollision {
    open spec fn wf(&self) -> bool {
        self.points.points@.len() > 0
    }

    open spec fn lo(&self) -> (int, int, int) {
        (self.points.lo(0), self.points.lo(1), self.points.lo(2))
    }

    open spec fn extent(&self) -> (int, int, int) {
        (
            self.points.hi(0) - self.points.lo(0),
            self.points.hi(1) - self.points.lo(1),
            self.points.hi(2) - self.points.lo(2),
        )
    }

    fn coord(&self) -> (r: (i32, i32, i32)) {
        (self.points.extreme(0, false), self.points.extreme(1, false), self.points.extreme(2, false))
    }

    fn size(&self) -> (r: (u32, u32, u32)) {
        proof {
            crate::engine::game::lemma_extremes(self.points.points@, 0);
            crate::engine::game::lemma_extremes(self.points.points@, 1);
            crate::engine::game::lemma_extremes(self.points.points@, 2);
        }
        let w = (self.points.extreme(0, true) as i64 - self.points.extreme(0, false) as i64) as u32;
        let h = (self.points.extreme(1, true) as i64 - self.points.extreme(1, false) as i64) as u32;
        let d = (self.points.extreme(2, true) as i64 - self.points.extreme(2, false) as i64) as u32;
        (w, h, d)
    }
}

/// An axis-aligned box given by its smallest corner and its extent.
pub struct RectCollision {
    pub coord: (i32, i32, i32),
    pub width: u32,
    pub height: u32,
    pub depth: u32,
}

impl CollisionObjectCommon for RectCollision {
    open spec fn wf(&self) -> bool {
        true
    }

    open spec fn lo(&self) -> (int, int, int) {
        (self.coord.0 as int, self.coord.1 as int, self.coord.2 as int)
    }

    open spec fn extent(&self) -> (int, int, int) {
        (self.width as int, self.height as int, self.depth as int)
    }

    fn coord(&self) -> (r: (i32, i32, i32)) {
        self.coord
    }

    fn size(&self) -> (r: (u32, u32, u32)) {
        (self.width, self.height, self.depth)
    }
}

impl RectCollision {
    pub fn new(x: i32, y: i32, z: i32, width: u32, height: u32, depth: u32) -> (r: RectCollision)
        ensures
            r.coord == (x, y, z),
            r.width == width,
            r.height == height,
            r.depth == depth,
    {
        RectCollision { coord: (x, y, z), width, height, depth }
    }
}

/// The collision body of a game object: a box, or the bounding box of a polygon's vertices.
pub enum CollisionBody {
    Rect(RectCollision),
    Polygon(PolygonCollision),
}

impl CollisionObjectCommon for CollisionBody {
    open spec fn wf(&self) -> bool {
        match self {
            CollisionBody::Rect(b) => b.wf(),
            CollisionBody::Polygon(b) => b.wf(),
        }
    }

    open spec fn lo(&self) -> (int, int, int) {
        match self {
            CollisionBody::Rect(b) => b.lo(),
            CollisionBody::Polygon(b) => b.lo(),
        }
    }

    open spec fn extent(&self) -> (int, int, int) {
        match self {
            CollisionBody::Rect(b) => b.extent(),
            CollisionBody::Polygon(b) => b.extent(),
        }
    }

    fn coord(&self) -> (r: (i32, i32, i32)) {
        match self {
            CollisionBody::Rect(b) => b.coord(),
            CollisionBody::Polygon(b) => b.coord(),
        }
    }

    fn size(&self) -> (r: (u32, u32, u32)) {
        match self {
            CollisionBody::Rect(b) => b.size(),
            CollisionBody::Polygon(b) => b.size(),
        }
    }
}

/// Whether the bounding boxes of two bodies overlap on every axis; boxes that only touch do
/// not collide.
pub fn check_collision<A: CollisionObjectCommon, B: CollisionObjectCommon>(obj1: &A, obj2: &B) -> (r:
    bool)
    requires
        obj1.wf(),
        obj2.wf(),
    ensures
        r == boxes_overlap(obj1.lo(), obj1.extent(), obj2.lo(), obj2.extent()),
{
    let (x1, y1, z1) = obj2.coord();
    let (x2, y2, z2) = obj1.coord();
    let (w1, h1, d1) = obj2.size();
    let (w2, h2, d2) = obj1.size();
    (x1 as i64) < x2 as i64 + w2 as i64 && x1 as i64 + w1 as i64 > x2 as i64 && (y1 as i64) < y2 as i64
        + h2 as i64 && y1 as i64 + h1 as i64 > y2 as i64 && (z1 as i64) < z2 as i64 + d2 as i64 && z1
        as i64 + d1 as i64 > z2 as i64
}

/// Collision is symmetric: `a` overlaps `b` exactly when `b` overlaps `a`.
pub proof fn lemma_collision_symmetric<A: CollisionObjectCommon, B: CollisionObjectCommon>(a: &A, b: &B)
    ensures
        boxes_overlap(a.lo(), a.extent(), b.lo(), b.extent()) == boxes_overlap(
            b.lo(),
            b.extent(),
            a.lo(),
            a.extent(),
        ),
{
}

} // verus!
