use vstd::prelude::*;

use crate::engine::image::{Image, in_fan, on_outline, point_at};
use crate::engine::physics::{
    boxes_overlap, check_collision, CollisionBody, CollisionObjectCommon, PolygonCollision,
    RectCollision,
};

verus! {

/// Velocities, accelerations and sub-pixel offsets are fixed-point numbers: a component
/// value `v` stands for `v / SUBPIXELS` pixels (per tick).
pub const SUBPIXELS: i64 = 1000;

/// `a / d` rounded toward zero, for `d > 0`.
pub open spec fn trunc_div(a: int, d: int) -> int {
    if a >= 0 {
        a / d
    } else {
        -((-a) / d)
    }
}

/// `x` saturated into the range of `i32`.
pub open spec fn clamp_i32(x: int) -> i32 {
    if x < i32::MIN {
        i32::MIN
    } else if x > i32::MAX {
        i32::MAX
    } else {
        x as i32
    }
}

/// `x` saturated into the range of `i64`.
pub open spec fn clamp_i64(x: int) -> i64 {
    if x < i64::MIN {
        i64::MIN
    } else if x > i64::MAX {
        i64::MAX
    } else {
        x as i64
    }
}

/// Integer position `c` moved by the fixed-point offset `d`: the exact sum truncated toward
/// zero, saturated to `i32`.
pub open spec fn shifted(c: i32, d: i64) -> i32 {
    clamp_i32(trunc_div(c * SUBPIXELS + d, SUBPIXELS as int))
}

/// Moves an integer position by a fixed-point offset.
pub fn shift(c: i32, d: i64) -> (r: i32)
    ensures
        r == shifted(c, d),
{
    assert(i32::MIN * SUBPIXELS <= c * SUBPIXELS <= i32::MAX * SUBPIXELS) by (nonlinear_arith)
        requires
            SUBPIXELS == 1000,
    ;
    let s: i128 = c as i128 * SUBPIXELS as i128 + d as i128;
    let q: i128 = if s >= 0 {
        s / SUBPIXELS as i128
    } else {
        -((-s) / SUBPIXELS as i128)
    };
    if q < i32::MIN as i128 {
        i32::MIN
    } else if q > i32::MAX as i128 {
        i32::MAX
    } else {
        q as i32
    }
}

/// A vertex: integer position with its own fixed-point velocity and acceleration.
#[derive(Debug, Clone, Copy)]
pub struct Point {
    pub coord: (i32, i32, i32),
    pub velocity: (i64, i64, i64),
    pub acceleration: (i64, i64, i64),
}

/// Component `a` (0 = x, 1 = y, otherwise z) of a point's position.
pub open spec fn axis(p: Point, a: int) -> int {
    if a == 0 {
        p.coord.0 as int
    } else if a == 1 {
        p.coord.1 as int
    } else {
        p.coord.2 as int
    }
}

/// Smallest position component `a` over a non-empty sequence of points.
pub open spec fn lowest(s: Seq<Point>, a: int) -> int
    decreases s.len(),
{
    if s.len() <= 1 {
        axis(s[0], a)
    } else {
        let m = lowest(s.drop_last(), a);
        let v = axis(s.last(), a);
        if v < m {
            v
        } else {
            m
        }
    }
}

/// Largest position component `a` over a non-empty sequence of points.
pub open spec fn highest(s: Seq<Point>, a: int) -> int
    decreases s.len(),
{
    if s.len() <= 1 {
        axis(s[0], a)
    } else {
        let m = highest(s.drop_last(), a);
        let v = axis(s.last(), a);
        if v > m {
            v
        } else {
            m
        }
    }
}

/// The extremes bound every point and lie in the range of `i32`.
pub proof fn lemma_extremes(s: Seq<Point>, a: int)
    requires
        s.len() > 0,
    ensures
        i32::MIN <= lowest(s, a) <= highest(s, a) <= i32::MAX,
        forall|i: int| 0 <= i < s.len() ==> lowest(s, a) <= #[trigger] axis(s[i], a) <= highest(s, a),
    decreases s.len(),
{
    if s.len() > 1 {
        lemma_extremes(s.drop_last(), a);
        assert forall|i: int| 0 <= i < s.len() implies lowest(s, a) <= #[trigger] axis(s[i], a)
            <= highest(s, a) by {
            if i < s.len() - 1 {
                assert(s[i] == s.drop_last()[i]);
            }
        }
    }
}

impl Point {
    pub fn new(x: i32, y: i32, z: i32) -> (r: Point)
        ensures
            r.coord == (x, y, z),
            r.velocity == (0i64, 0i64, 0i64),
            r.acceleration == (0i64, 0i64, 0i64),
    {
        Point { coord: (x, y, z), velocity: (0, 0, 0), acceleration: (0, 0, 0) }
    }
}

/// Adds two fixed-point components, saturating at the range of `i64`.
pub fn sat_add(a: i64, b: i64) -> (r: i64)
    ensures
        r == clamp_i64(a + b),
{
    let s: i128 = a as i128 + b as i128;
    if s < i64::MIN as i128 {
        i64::MIN
    } else if s > i64::MAX as i128 {
        i64::MAX
    } else {
        s as i64
    }
}

/// How an object's image is combined with the frame beneath it.
#[derive(PartialEq, Eq, Structural, Debug, Clone, Copy)]
pub enum DrawMode {
    /// Only non-zero pixels are copied; black is transparent.
    Overlay,
    /// Every pixel replaces the one beneath.
    Override,
    /// Pixel values are added, wrapping on overflow.
    Addition,
}

/// The frame pixel that results from drawing `src` over `dst` in `mode`.
pub open spec fn blend(mode: DrawMode, dst: u32, src: u32) -> u32 {
    match mode {
        DrawMode::Overlay => if src != 0 {
            src
        } else {
            dst
        },
        DrawMode::Override => src,
        DrawMode::Addition => crate::linalg::wrap(dst + src),
    }
}

/// Position `c` moved by the fixed-point vector `d`, component by component.
pub open spec fn shifted3(c: (i32, i32, i32), d: (i64, i64, i64)) -> (i32, i32, i32) {
    (shifted(c.0, d.0), shifted(c.1, d.1), shifted(c.2, d.2))
}

/// Fixed-point vectors added component by component, saturating.
pub open spec fn added3(a: (i64, i64, i64), b: (i64, i64, i64)) -> (i64, i64, i64) {
    (clamp_i64(a.0 + b.0), clamp_i64(a.1 + b.1), clamp_i64(a.2 + b.2))
}

fn shift3(c: (i32, i32, i32), d: (i64, i64, i64)) -> (r: (i32, i32, i32))
    ensures
        r == shifted3(c, d),
{
    (shift(c.0, d.0), shift(c.1, d.1), shift(c.2, d.2))
}

fn add3(a: (i64, i64, i64), b: (i64, i64, i64)) -> (r: (i64, i64, i64))
    ensures
        r == added3(a, b),
{
    (sat_add(a.0, b.0), sat_add(a.1, b.1), sat_add(a.2, b.2))
}

impl Point {
    /// The point one tick later: the position first moves by the velocity, then the velocity
    /// grows by the acceleration.
    pub open spec fn advanced(self) -> Point {
        Point {
            coord: shifted3(self.coord, self.velocity),
            velocity: added3(self.velocity, self.acceleration),
            acceleration: self.acceleration,
        }
    }

    pub fn update(&mut self)
        ensures
            *final(self) == old(self).advanced(),
    {
        self.coord = shift3(self.coord, self.velocity);
        self.velocity = add3(self.velocity, self.acceleration);
    }
}

/// An ordered sequence of points; the order is the winding order of a polygon.
pub struct Points {
    pub points: Vec<Point>,
}

impl Points {
    /// Smallest coordinate along axis `a`.
    pub open spec fn lo(&self, a: int) -> int {
        lowest(self.points@, a)
    }

    /// Largest coordinate along axis `a`.
    pub open spec fn hi(&self, a: int) -> int {
        highest(self.points@, a)
    }

    pub fn new() -> (r: Points)
        ensures
            r.points@.len() == 0,
    {
        Points { points: Vec::new() }
    }

    pub fn add_point(&mut self, point: Point)
        ensures
            final(self).points@ == old(self).points@.push(point),
    {
        self.points.push(point);
    }

    /// Smallest (or, with `want_max`, largest) coordinate along `axis_index`.
    pub(crate) fn extreme(&self, axis_index: u8, want_max: bool) -> (r: i32)
        requires
            self.points@.len() > 0,
            axis_index < 3,
        ensures
            r == if want_max {
                self.hi(axis_index as int)
            } else {
                self.lo(axis_index as int)
            },
    {
        let ghost s = self.points@;
        let ghost a = axis_index as int;
        let mut best: i32 = pick(&self.points[0], axis_index);
        let mut i: usize = 1;
        proof {
            assert(s.take(1).len() == 1);
        }
        while i < self.points.len()
            invariant
                1 <= i <= s.len(),
                s == self.points@,
                a == axis_index as int,
                axis_index < 3,
                best == if want_max {
                    highest(s.take(i as int), a)
                } else {
                    lowest(s.take(i as int), a)
                },
            decreases s.len() - i,
        {
            let v = pick(&self.points[i], axis_index);
            proof {
                assert(s.take(i + 1).drop_last() =~= s.take(i as int));
            }
            if want_max {
                if v > best {
                    best = v;
                }
            } else {
                if v < best {
                    best = v;
                }
            }
            i = i + 1;
        }
        proof {
            assert(s.take(s.len() as int) =~= s);
        }
        best
    }

    /// Smallest x, or `None` for an empty sequence.
    pub fn min_x(&self) -> (r: Option<i32>)
        ensures
            r == if self.points@.len() == 0 {
                None
            } else {
                Some(self.lo(0) as i32)
            },
    {
        if self.points.len() == 0 {
            None
        } else {
            Some(self.extreme(0, false))
        }
    }

    /// Largest x, or `None` for an empty sequence.
    pub fn max_x(&self) -> (r: Option<i32>)
        ensures
            r == if self.points@.len() == 0 {
                None
            } else {
                Some(self.hi(0) as i32)
            },
    {
        if self.points.len() == 0 {
            None
        } else {
            Some(self.extreme(0, true))
        }
    }

    /// Smallest y, or `None` for an empty sequence.
    pub fn min_y(&self) -> (r: Option<i32>)
        ensures
            r == if self.points@.len() == 0 {
                None
            } else {
                Some(self.lo(1) as i32)
            },
    {
        if self.points.len() == 0 {
            None
        } else {
            Some(self.extreme(1, false))
        }
    }

    /// Largest y, or `None` for an empty sequence.
    pub fn max_y(&self) -> (r: Option<i32>)
        ensures
            r == if self.points@.len() == 0 {
                None
            } else {
                Some(self.hi(1) as i32)
            },
    {
        if self.points.len() == 0 {
            None
        } else {
            Some(self.extreme(1, true))
        }
    }

    /// Smallest z, or `None` for an empty sequence.
    pub fn min_z(&self) -> (r: Option<i32>)
        ensures
            r == if self.points@.len() == 0 {
                None
            } else {
                Some(self.lo(2) as i32)
            },
    {
        if self.points.len() == 0 {
            None
        } else {
            Some(self.extreme(2, false))
        }
    }

    /// Largest z, or `None` for an empty sequence.
    pub fn max_z(&self) -> (r: Option<i32>)
        ensures
            r == if self.points@.len() == 0 {
                None
            } else {
                Some(self.hi(2) as i32)
            },
    {
        if self.points.len() == 0 {
            None
        } else {
            Some(self.extreme(2, true))
        }
    }
    /// Centre of the bounding box, each component truncated toward zero; `None` for an empty
    /// sequence.
    pub fn center(&self) -> (r: Option<(i32, i32, i32)>)
        ensures
            r == if self.points@.len() == 0 {
                None
            } else {
                Some(
                    (
                        trunc_div(self.lo(0) + self.hi(0), 2) as i32,
                        trunc_div(self.lo(1) + self.hi(1), 2) as i32,
                        trunc_div(self.lo(2) + self.hi(2), 2) as i32,
                    ),
                )
            },
    {
        if self.points.len() == 0 {
            return None;
        }
        Some((self.middle(0), self.middle(1), self.middle(2)))
    }

    fn middle(&self, axis_index: u8) -> (r: i32)
        requires
            self.points@.len() > 0,
            axis_index < 3,
        ensures
            r == trunc_div(self.lo(axis_index as int) + self.hi(axis_index as int), 2),
    {
        proof {
            lemma_extremes(self.points@, axis_index as int);
        }
        let s: i64 = self.extreme(axis_index, false) as i64 + self.extreme(axis_index, true) as i64;
        if s >= 0 {
            (s / 2) as i32
        } else {
            (-((-s) / 2)) as i32
        }
    }

    /// Extent along `axis_index`.
    fn extent_along(&self, axis_index: u8) -> (r: u32)
        requires
            self.points@.len() > 0,
            axis_index < 3,
        ensures
            r == self.hi(axis_index as int) - self.lo(axis_index as int),
    {
        proof {
            lemma_extremes(self.points@, axis_index as int);
        }
        (self.extreme(axis_index, true) as i64 - self.extreme(axis_index, false) as i64) as u32
    }

    /// Extent along x, or `None` for an empty sequence.
    pub fn width(&self) -> (r: Option<u32>)
        ensures
            r == if self.points@.len() == 0 {
                None
            } else {
                Some((self.hi(0) - self.lo(0)) as u32)
            },
    {
        if self.points.len() == 0 {
            None
        } else {
            Some(self.extent_along(0))
        }
    }

    /// Extent along y, or `None` for an empty sequence.
    pub fn height(&self) -> (r: Option<u32>)
        ensures
            r == if self.points@.len() == 0 {
                None
            } else {
                Some((self.hi(1) - self.lo(1)) as u32)
            },
    {
        if self.points.len() == 0 {
            None
        } else {
            Some(self.extent_along(1))
        }
    }

    /// Extent along z, or `None` for an empty sequence.
    pub fn depth(&self) -> (r: Option<u32>)
        ensures
            r == if self.points@.len() == 0 {
                None
            } else {
                Some((self.hi(2) - self.lo(2)) as u32)
            },
    {
        if self.points.len() == 0 {
            None
        } else {
            Some(self.extent_along(2))
        }
    }

    /// Smallest corner of the bounding box, or `None` for an empty sequence.
    pub fn coord(&self) -> (r: Option<(i32, i32, i32)>)
        ensures
            r == if self.points@.len() == 0 {
                None
            } else {
                Some((self.lo(0) as i32, self.lo(1) as i32, self.lo(2) as i32))
            },
    {
        if self.points.len() == 0 {
            None
        } else {
            Some((self.extreme(0, false), self.extreme(1, false), self.extreme(2, false)))
        }
    }

    /// Extent of the bounding box, or `None` for an empty sequence.
    pub fn size(&self) -> (r: Option<(u32, u32, u32)>)
        ensures
            r == if self.points@.len() == 0 {
                None
            } else {
                Some(
                    (
                        (self.hi(0) - self.lo(0)) as u32,
                        (self.hi(1) - self.lo(1)) as u32,
                        (self.hi(2) - self.lo(2)) as u32,
                    ),
                )
            },
    {
        if self.points.len() == 0 {
            None
        } else {
            Some((self.extent_along(0), self.extent_along(1), self.extent_along(2)))
        }
    }
}

/// Component `axis_index` of a point's position.
fn pick(p: &Point, axis_index: u8) -> (r: i32)
    ensures
        r == axis(*p, axis_index as int),
{
    if axis_index == 0 {
        p.coord.0
    } else if axis_index == 1 {
        p.coord.1
    } else {
        p.coord.2
    }
}

/// Whether (`r`, `c`) lies on the outermost ring of a `w` x `h` rectangle.
pub open spec fn on_border(r: int, c: int, w: int, h: int) -> bool {
    r == 0 || r == h - 1 || c == 0 || c == w - 1
}

/// An axis-aligned box that moves as one body.
pub struct Rect {
    pub coord: (i32, i32, i32),
    pub velocity: (i64, i64, i64),
    pub acceleration: (i64, i64, i64),
    pub width: u32,
    pub height: u32,
    pub depth: u32,
    pub image: Image,
    pub color: u32,
    pub draw_mode: DrawMode,
    pub filled: bool,
}

impl Rect {
    pub open spec fn wf(&self) -> bool {
        &&& self.image.wf()
        &&& self.width * self.height <= usize::MAX
    }

    /// Pixel (`r`, `c`) of the box's own image, filled or as an outline.
    pub open spec fn pixel(&self, filled: bool, r: int, c: int) -> u32 {
        if filled || on_border(r, c, self.width as int, self.height as int) {
            self.color
        } else {
            0
        }
    }

    /// Whether the box's image is its `filled` (or outline) rendering.
    pub open spec fn shows(&self, filled: bool) -> bool {
        &&& self.image.wf()
        &&& self.image.width == self.width
        &&& self.image.height == self.height
        &&& forall|r: int, c: int|
            self.image.in_bounds(r, c) ==> #[trigger] self.image.px(r, c) == self.pixel(filled, r, c)
    }

    /// A flat box at rest at (`x`, `y`, 0) with a black image of its size.
    pub fn new2d(
        x: i32,
        y: i32,
        width: u32,
        height: u32,
        color: u32,
        draw_mode: DrawMode,
        filled: bool,
    ) -> (r: Rect)
        requires
            width * height <= usize::MAX,
        ensures
            r.wf(),
            r.coord == (x, y, 0i32),
            r.velocity == (0i64, 0i64, 0i64),
            r.acceleration == (0i64, 0i64, 0i64),
            r.width == width,
            r.height == height,
            r.depth == 0,
            r.color == color,
            r.draw_mode == draw_mode,
            r.filled == filled,
            r.image.width == width,
            r.image.height == height,
            forall|i: int, j: int| r.image.in_bounds(i, j) ==> #[trigger] r.image.px(i, j) == 0,
    {
        Rect {
            coord: (x, y, 0),
            velocity: (0, 0, 0),
            acceleration: (0, 0, 0),
            width,
            height,
            depth: 0,
            image: Image::new_filled(0x000000, width as usize, height as usize),
            color,
            draw_mode,
            filled,
        }
    }

    /// One tick: the position moves by the velocity, then the velocity grows by the
    /// acceleration.
    pub fn update(&mut self)
        ensures
            *final(self) == (Rect {
                coord: shifted3(old(self).coord, old(self).velocity),
                velocity: added3(old(self).velocity, old(self).acceleration),
                ..*old(self)
            }),
    {
        self.coord = shift3(self.coord, self.velocity);
        self.velocity = add3(self.velocity, self.acceleration);
    }

    pub fn coord(&self) -> (r: (i32, i32, i32))
        ensures
            r == self.coord,
    {
        self.coord
    }

    pub fn velocity(&self) -> (r: (i64, i64, i64))
        ensures
            r == self.velocity,
    {
        self.velocity
    }

    pub fn acceleration(&self) -> (r: (i64, i64, i64))
        ensures
            r == self.acceleration,
    {
        self.acceleration
    }

    pub fn size(&self) -> (r: (u32, u32, u32))
        ensures
            r == (self.width, self.height, self.depth),
    {
        (self.width, self.height, self.depth)
    }

    pub fn image(&self) -> (r: &Image)
        ensures
            *r == self.image,
    {
        &self.image
    }

    /// The box's collision body at its current position.
    pub fn collision(&self) -> (r: RectCollision)
        ensures
            r.coord == self.coord,
            r.width == self.width,
            r.height == self.height,
            r.depth == self.depth,
    {
        RectCollision::new(self.coord.0, self.coord.1, self.coord.2, self.width, self.height, self.depth)
    }

    pub fn move_to(&mut self, x: i32, y: i32, z: i32)
        ensures
            *final(self) == (Rect { coord: (x, y, z), ..*old(self) }),
    {
        self.coord = (x, y, z);
    }

    /// Moves the box by a fixed-point offset.
    pub fn translate(&mut self, x: i64, y: i64, z: i64)
        ensures
            *final(self) == (Rect { coord: shifted3(old(self).coord, (x, y, z)), ..*old(self) }),
    {
        self.coord = shift3(self.coord, (x, y, z));
    }

    pub fn set_velocity(&mut self, x: i64, y: i64, z: i64)
        ensures
            *final(self) == (Rect { velocity: (x, y, z), ..*old(self) }),
    {
        self.velocity = (x, y, z);
    }

    pub fn add_velocity(&mut self, x: i64, y: i64, z: i64)
        ensures
            *final(self) == (Rect { velocity: added3(old(self).velocity, (x, y, z)), ..*old(self) }),
    {
        self.velocity = add3(self.velocity, (x, y, z));
    }

    pub fn set_acceleration(&mut self, x: i64, y: i64, z: i64)
        ensures
            *final(self) == (Rect { acceleration: (x, y, z), ..*old(self) }),
    {
        self.acceleration = (x, y, z);
    }

    pub fn add_acceleration(&mut self, x: i64, y: i64, z: i64)
        ensures
            *final(self) == (Rect {
                acceleration: added3(old(self).acceleration, (x, y, z)),
                ..*old(self)
            }),
    {
        self.acceleration = add3(self.acceleration, (x, y, z));
    }

    /// Rebuilds the image as a box filled with the colour.
    pub fn generate_image(&mut self)
        requires
            old(self).wf(),
        ensures
            final(self).wf(),
            final(self).shows(true),
            *final(self) == (Rect { image: final(self).image, ..*old(self) }),
    {
        self.image = Image::new_filled(self.color, self.width as usize, self.height as usize);
    }

    /// Rebuilds the image as the outline of the box on black.
    pub fn generate_image_hollow(&mut self)
        requires
            old(self).wf(),
        ensures
            final(self).wf(),
            final(self).shows(false),
            *final(self) == (Rect { image: final(self).image, ..*old(self) }),
    {
        let w = self.width;
        let h = self.height;
        let mut image = Image::new(w as usize, h as usize);
        let mut i: u32 = 0;
        while i < h
            invariant
                i <= h,
                w == self.width,
                h == self.height,
                image.wf(),
                image.width == w,
                image.height == h,
                forall|r: int, c: int|
                    image.in_bounds(r, c) ==> #[trigger] image.px(r, c) == if r < i && on_border(
                        r,
                        c,
                        w as int,
                        h as int,
                    ) {
                        self.color
                    } else {
                        0
                    },
            decreases h - i,
        {
            let mut j: u32 = 0;
            while j < w
                invariant
                    i < h,
                    j <= w,
                    w == self.width,
                    h == self.height,
                    image.wf(),
                    image.width == w,
                    image.height == h,
                    forall|r: int, c: int|
                        image.in_bounds(r, c) ==> #[trigger] image.px(r, c) == if (r < i || (r == i
                            && c < j)) && on_border(r, c, w as int, h as int) {
                            self.color
                        } else {
                            0
                        },
                decreases w - j,
            {
                let ghost prev = image;
                if i == 0 || i == h - 1 || j == 0 || j == w - 1 {
                    image.pixels.write(i, j, self.color);
                }
                proof {
                    assert forall|r: int, c: int| image.in_bounds(r, c) implies #[trigger] image.px(r, c)
                        == if (r < i || (r == i && c < j + 1)) && on_border(r, c, w as int, h as int) {
                        self.color
                    } else {
                        0
                    } by {
                        assert(prev.in_bounds(r, c));
                        assert(prev.px(r, c) == if (r < i || (r == i && c < j)) && on_border(
                            r,
                            c,
                            w as int,
                            h as int,
                        ) {
                            self.color
                        } else {
                            0
                        });
                    }
                }
                j = j + 1;
            }
            i = i + 1;
        }
        self.image = image;
    }

    pub fn mode(&self) -> (r: DrawMode)
        ensures
            r == self.draw_mode,
    {
        self.draw_mode
    }

    pub fn filled(&self) -> (r: bool)
        ensures
            r == self.filled,
    {
        self.filled
    }
}

/// The points moved so that their smallest x and y become zero, flattened onto z = 0 and at
/// rest: the vertices of a polygon's own image.
pub open spec fn localized(s: Seq<Point>) -> Seq<Point> {
    Seq::new(
        s.len(),
        |i: int| point_at(s[i].coord.0 - lowest(s, 0), s[i].coord.1 - lowest(s, 1)),
    )
}

/// Component `a` of a point's velocity, or with `of_acceleration` of its acceleration.
pub open spec fn motion(p: Point, a: int, of_acceleration: bool) -> int {
    let v = if of_acceleration {
        p.acceleration
    } else {
        p.velocity
    };
    if a == 0 {
        v.0 as int
    } else if a == 1 {
        v.1 as int
    } else {
        v.2 as int
    }
}

/// Sum of `motion(p, a, of_acceleration)` over the points.
pub open spec fn motion_sum(s: Seq<Point>, a: int, of_acceleration: bool) -> int
    decreases s.len(),
{
    if s.len() == 0 {
        0
    } else {
        motion_sum(s.drop_last(), a, of_acceleration) + motion(s.last(), a, of_acceleration)
    }
}

/// Mean of `motion(p, a, of_acceleration)` over a non-empty sequence, truncated toward zero.
pub open spec fn motion_mean(s: Seq<Point>, a: int, of_acceleration: bool) -> i64 {
    trunc_div(motion_sum(s, a, of_acceleration), s.len() as int) as i64
}

/// The kinds of per-vertex change a polygon applies to all its vertices at once.
enum Motion {
    Advance,
    Translate,
    SetVelocity,
    AddVelocity,
    SetAcceleration,
    AddAcceleration,
}

spec fn moved(kind: Motion, v: (i64, i64, i64), p: Point) -> Point {
    match kind {
        Motion::Advance => p.advanced(),
        Motion::Translate => Point { coord: shifted3(p.coord, v), ..p },
        Motion::SetVelocity => Point { velocity: v, ..p },
        Motion::AddVelocity => Point { velocity: added3(p.velocity, v), ..p },
        Motion::SetAcceleration => Point { acceleration: v, ..p },
        Motion::AddAcceleration => Point { acceleration: added3(p.acceleration, v), ..p },
    }
}

fn apply_motion(kind: &Motion, v: (i64, i64, i64), p: Point) -> (r: Point)
    ensures
        r == moved(*kind, v, p),
{
    let mut q = p;
    match kind {
        Motion::Advance => q.update(),
        Motion::Translate => q.coord = shift3(p.coord, v),
        Motion::SetVelocity => q.velocity = v,
        Motion::AddVelocity => q.velocity = add3(p.velocity, v),
        Motion::SetAcceleration => q.acceleration = v,
        Motion::AddAcceleration => q.acceleration = add3(p.acceleration, v),
    }
    q
}

/// A polygon whose vertices each carry their own velocity and acceleration.
pub struct Polygon {
    pub points: Points,
    pub image: Image,
    pub color: u32,
    pub draw_mode: DrawMode,
    pub filled: bool,
}

impl Polygon {
    pub open spec fn wf(&self) -> bool {
        &&& self.image.wf()
        &&& self.points.points@.len() > 0
    }

    /// Extent of the vertices along axis `a`.
    pub open spec fn span(&self, a: int) -> int {
        self.points.hi(a) - self.points.lo(a)
    }

    /// Whether an image covering the vertices can be addressed and fits in memory.
    pub open spec fn drawable(&self) -> bool {
        &&& self.wf()
        &&& self.span(0) < i32::MAX
        &&& self.span(1) < i32::MAX
        &&& (self.span(0) + 1) * (self.span(1) + 1) <= usize::MAX
    }

    /// Pixel (`r`, `c`) of the polygon's own image, filled or as an outline.
    pub open spec fn pixel(&self, filled: bool, r: int, c: int) -> u32 {
        let pts = localized(self.points.points@);
        if (filled && in_fan(pts, pts.len() - 2, c, r)) || (!filled && on_outline(
            pts,
            pts.len() as int,
            c,
            r,
        )) {
            self.color
        } else {
            0
        }
    }

    /// Whether the polygon's image is its `filled` (or outline) rendering, one pixel wider and
    /// taller than the vertices' extent.
    pub open spec fn shows(&self, filled: bool) -> bool {
        &&& self.image.wf()
        &&& self.image.width == self.span(0) + 1
        &&& self.image.height == self.span(1) + 1
        &&& forall|r: int, c: int|
            self.image.in_bounds(r, c) ==> #[trigger] self.image.px(r, c) == self.pixel(filled, r, c)
    }

    /// A polygon without vertices and with a 1 x 1 black image.
    pub fn new(color: u32, draw_mode: DrawMode, filled: bool) -> (r: Polygon)
        ensures
            r.image.wf(),
            r.image.width == 1,
            r.image.height == 1,
            r.points.points@.len() == 0,
            r.color == color,
            r.draw_mode == draw_mode,
            r.filled == filled,
    {
        Polygon { points: Points::new(), image: Image::new(1, 1), color, draw_mode, filled }
    }

    /// A polygon without vertices, to be given points in the plane z = 0.
    pub fn new2d(color: u32, draw_mode: DrawMode, filled: bool) -> (r: Polygon)
        ensures
            r.image.wf(),
            r.image.width == 1,
            r.image.height == 1,
            r.points.points@.len() == 0,
            r.color == color,
            r.draw_mode == draw_mode,
            r.filled == filled,
    {
        Polygon::new(color, draw_mode, filled)
    }

    /// Appends a vertex.
    pub fn add_point(&mut self, point: Point)
        ensures
            *final(self) == (Polygon { points: final(self).points, ..*old(self) }),
            final(self).points.points@ == old(self).points.points@.push(point),
    {
        self.points.add_point(point);
    }

    /// Replaces all vertices.
    pub fn set_points(&mut self, points: Points)
        ensures
            *final(self) == (Polygon { points: points, ..*old(self) }),
    {
        self.points = points;
    }

    /// The vertices in order.
    pub fn points(&self) -> (r: Vec<&Point>)
        ensures
            r@.len() == self.points.points@.len(),
            forall|i: int| 0 <= i < r@.len() ==> *#[trigger] r@[i] == self.points.points@[i],
    {
        let mut output: Vec<&Point> = Vec::new();
        let mut i: usize = 0;
        while i < self.points.points.len()
            invariant
                i <= self.points.points@.len(),
                output@.len() == i,
                forall|k: int| 0 <= k < i ==> *#[trigger] output@[k] == self.points.points@[k],
            decreases self.points.points@.len() - i,
        {
            output.push(&self.points.points[i]);
            i = i + 1;
        }
        output
    }

    /// Applies one kind of change to every vertex.
    fn move_all(&mut self, kind: Motion, v: (i64, i64, i64))
        ensures
            *final(self) == (Polygon { points: final(self).points, ..*old(self) }),
            final(self).points.points@.len() == old(self).points.points@.len(),
            forall|i: int|
                0 <= i < old(self).points.points@.len() ==> #[trigger] final(self).points.points@[i]
                    == moved(kind, v, old(self).points.points@[i]),
    {
        let n = self.points.points.len();
        let mut i: usize = 0;
        while i < n
            invariant
                n == old(self).points.points@.len(),
                i <= n,
                *self == (Polygon { points: self.points, ..*old(self) }),
                self.points.points@.len() == n,
                forall|k: int|
                    0 <= k < i ==> #[trigger] self.points.points@[k] == moved(
                        kind,
                        v,
                        old(self).points.points@[k],
                    ),
                forall|k: int|
                    i <= k < n ==> #[trigger] self.points.points@[k] == old(self).points.points@[k],
            decreases n - i,
        {
            let p = apply_motion(&kind, v, self.points.points[i]);
            self.points.points.set(i, p);
            i = i + 1;
        }
    }

    /// One tick for every vertex: its position moves by its velocity, then its velocity grows
    /// by its acceleration.
    pub fn update(&mut self)
        ensures
            *final(self) == (Polygon { points: final(self).points, ..*old(self) }),
            final(self).points.points@.len() == old(self).points.points@.len(),
            forall|i: int|
                0 <= i < old(self).points.points@.len() ==> #[trigger] final(self).points.points@[i]
                    == old(self).points.points@[i].advanced(),
    {
        self.move_all(Motion::Advance, (0, 0, 0));
    }

    /// Smallest corner of the vertices' bounding box.
    pub fn coord(&self) -> (r: (i32, i32, i32))
        requires
            self.wf(),
        ensures
            r == (self.points.lo(0) as i32, self.points.lo(1) as i32, self.points.lo(2) as i32),
    {
        (self.points.extreme(0, false), self.points.extreme(1, false), self.points.extreme(2, false))
    }

    /// Extent of the vertices' bounding box.
    pub fn size(&self) -> (r: (u32, u32, u32))
        requires
            self.wf(),
        ensures
            r == (self.span(0) as u32, self.span(1) as u32, self.span(2) as u32),
    {
        proof {
            lemma_extremes(self.points.points@, 0);
            lemma_extremes(self.points.points@, 1);
            lemma_extremes(self.points.points@, 2);
        }
        let w = (self.points.extreme(0, true) as i64 - self.points.extreme(0, false) as i64) as u32;
        let h = (self.points.extreme(1, true) as i64 - self.points.extreme(1, false) as i64) as u32;
        let d = (self.points.extreme(2, true) as i64 - self.points.extreme(2, false) as i64) as u32;
        (w, h, d)
    }

    /// Mean over the vertices of their velocities (or accelerations), each component
    /// truncated toward zero; `None` without vertices.
    fn mean_motion(&self, of_acceleration: bool) -> (r: Option<(i64, i64, i64)>)
        ensures
            r == if self.points.points@.len() == 0 {
                None
            } else {
                Some(
                    (
                        motion_mean(self.points.points@, 0, of_acceleration),
                        motion_mean(self.points.points@, 1, of_acceleration),
                        motion_mean(self.points.points@, 2, of_acceleration),
                    ),
                )
            },
    {
        let n = self.points.points.len();
        if n == 0 {
            return None;
        }
        let ghost s = self.points.points@;
        let mut sums: (i128, i128, i128) = (0, 0, 0);
        let mut i: usize = 0;
        assert(s.take(0) =~= Seq::<Point>::empty());
        while i < n
            invariant
                n == s.len(),
                s == self.points.points@,
                i <= n,
                n <= usize::MAX,
                sums.0 == motion_sum(s.take(i as int), 0, of_acceleration),
                sums.1 == motion_sum(s.take(i as int), 1, of_acceleration),
                sums.2 == motion_sum(s.take(i as int), 2, of_acceleration),
                i64::MIN * i <= sums.0 <= i64::MAX * i,
                i64::MIN * i <= sums.1 <= i64::MAX * i,
                i64::MIN * i <= sums.2 <= i64::MAX * i,
            decreases n - i,
        {
            let p = self.points.points[i];
            let (vx, vy, vz) = if of_acceleration {
                p.acceleration
            } else {
                p.velocity
            };
            proof {
                assert(s.take(i + 1).drop_last() =~= s.take(i as int));
                assert(usize::MAX <= 0xffff_ffff_ffff_ffff);
                assert(i64::MAX * (i + 1) < 0x7fff_ffff_ffff_ffff_ffff_ffff_ffff_ffff) by (nonlinear_arith)
                    requires
                        i < 0xffff_ffff_ffff_ffff,
                ;
                assert(i64::MIN * (i + 1) > -0x8000_0000_0000_0000_0000_0000_0000_0000) by (nonlinear_arith)
                    requires
                        i < 0xffff_ffff_ffff_ffff,
                ;
            }
            sums = (sums.0 + vx as i128, sums.1 + vy as i128, sums.2 + vz as i128);
            i = i + 1;
        }
        proof {
            assert(s.take(n as int) =~= s);
        }
        Some((mean_of(sums.0, n), mean_of(sums.1, n), mean_of(sums.2, n)))
    }

    /// Mean velocity of the vertices, or `None` without vertices.
    pub fn velocity(&self) -> (r: Option<(i64, i64, i64)>)
        ensures
            r == if self.points.points@.len() == 0 {
                None
            } else {
                Some(
                    (
                        motion_mean(self.points.points@, 0, false),
                        motion_mean(self.points.points@, 1, false),
                        motion_mean(self.points.points@, 2, false),
                    ),
                )
            },
    {
        self.mean_motion(false)
    }

    /// Mean acceleration of the vertices, or `None` without vertices.
    pub fn acceleration(&self) -> (r: Option<(i64, i64, i64)>)
        ensures
            r == if self.points.points@.len() == 0 {
                None
            } else {
                Some(
                    (
                        motion_mean(self.points.points@, 0, true),
                        motion_mean(self.points.points@, 1, true),
                        motion_mean(self.points.points@, 2, true),
                    ),
                )
            },
    {
        self.mean_motion(true)
    }

    /// The bounding box of the current vertices as a collision body.
    pub fn collision(&self) -> (r: PolygonCollision)
        ensures
            r.points.points@ == self.points.points@,
    {
        PolygonCollision { points: Points { points: self.points.points.clone() } }
    }

    /// Moves every vertex by the same fixed-point offset.
    pub fn translate(&mut self, x: i64, y: i64, z: i64)
        ensures
            *final(self) == (Polygon { points: final(self).points, ..*old(self) }),
            final(self).points.points@.len() == old(self).points.points@.len(),
            forall|i: int|
                0 <= i < old(self).points.points@.len() ==> #[trigger] final(self).points.points@[i]
                    == (Point {
                    coord: shifted3(old(self).points.points@[i].coord, (x, y, z)),
                    ..old(self).points.points@[i]
                }),
    {
        self.move_all(Motion::Translate, (x, y, z));
    }

    /// Gives every vertex the same velocity.
    pub fn set_velocity(&mut self, x: i64, y: i64, z: i64)
        ensures
            *final(self) == (Polygon { points: final(self).points, ..*old(self) }),
            final(self).points.points@.len() == old(self).points.points@.len(),
            forall|i: int|
                0 <= i < old(self).points.points@.len() ==> #[trigger] final(self).points.points@[i]
                    == (Point { velocity: (x, y, z), ..old(self).points.points@[i] }),
    {
        self.move_all(Motion::SetVelocity, (x, y, z));
    }

    /// Adds the same velocity to every vertex.
    pub fn add_velocity(&mut self, x: i64, y: i64, z: i64)
        ensures
            *final(self) == (Polygon { points: final(self).points, ..*old(self) }),
            final(self).points.points@.len() == old(self).points.points@.len(),
            forall|i: int|
                0 <= i < old(self).points.points@.len() ==> #[trigger] final(self).points.points@[i]
                    == (Point {
                    velocity: added3(old(self).points.points@[i].velocity, (x, y, z)),
                    ..old(self).points.points@[i]
                }),
    {
        self.move_all(Motion::AddVelocity, (x, y, z));
    }

    /// Gives every vertex the same acceleration.
    pub fn set_acceleration(&mut self, x: i64, y: i64, z: i64)
        ensures
            *final(self) == (Polygon { points: final(self).points, ..*old(self) }),
            final(self).points.points@.len() == old(self).points.points@.len(),
            forall|i: int|
                0 <= i < old(self).points.points@.len() ==> #[trigger] final(self).points.points@[i]
                    == (Point { acceleration: (x, y, z), ..old(self).points.points@[i] }),
    {
        self.move_all(Motion::SetAcceleration, (x, y, z));
    }

    /// Adds the same acceleration to every vertex.
    pub fn add_acceleration(&mut self, x: i64, y: i64, z: i64)
        ensures
            *final(self) == (Polygon { points: final(self).points, ..*old(self) }),
            final(self).points.points@.len() == old(self).points.points@.len(),
            forall|i: int|
                0 <= i < old(self).points.points@.len() ==> #[trigger] final(self).points.points@[i]
                    == (Point {
                    acceleration: added3(old(self).points.points@[i].acceleration, (x, y, z)),
                    ..old(self).points.points@[i]
                }),
    {
        self.move_all(Motion::AddAcceleration, (x, y, z));
    }

    /// Moves the polygon rigidly so that the smallest corner of its bounding box lands on
    /// (`x`, `y`, `z`).
    pub fn move_to(&mut self, x: i32, y: i32, z: i32)
        requires
            old(self).wf(),
            x + old(self).span(0) <= i32::MAX,
            y + old(self).span(1) <= i32::MAX,
            z + old(self).span(2) <= i32::MAX,
        ensures
            *final(self) == (Polygon { points: final(self).points, ..*old(self) }),
            final(self).points.points@.len() == old(self).points.points@.len(),
            forall|i: int|
                0 <= i < old(self).points.points@.len() ==> #[trigger] final(self).points.points@[i]
                    == (Point {
                    coord: (
                        (old(self).points.points@[i].coord.0 - old(self).points.lo(0) + x) as i32,
                        (old(self).points.points@[i].coord.1 - old(self).points.lo(1) + y) as i32,
                        (old(self).points.points@[i].coord.2 - old(self).points.lo(2) + z) as i32,
                    ),
                    ..old(self).points.points@[i]
                }),
    {
        let ghost s = self.points.points@;
        proof {
            lemma_extremes(s, 0);
            lemma_extremes(s, 1);
            lemma_extremes(s, 2);
        }
        let lx = self.points.extreme(0, false) as i64;
        let ly = self.points.extreme(1, false) as i64;
        let lz = self.points.extreme(2, false) as i64;
        let n = self.points.points.len();
        let mut i: usize = 0;
        while i < n
            invariant
                n == s.len(),
                s == old(self).points.points@,
                lx == lowest(s, 0),
                ly == lowest(s, 1),
                lz == lowest(s, 2),
                x + highest(s, 0) - lx <= i32::MAX,
                y + highest(s, 1) - ly <= i32::MAX,
                z + highest(s, 2) - lz <= i32::MAX,
                forall|k: int| 0 <= k < s.len() ==> lowest(s, 0) <= #[trigger] axis(s[k], 0) <= highest(s, 0),
                forall|k: int| 0 <= k < s.len() ==> lowest(s, 1) <= #[trigger] axis(s[k], 1) <= highest(s, 1),
                forall|k: int| 0 <= k < s.len() ==> lowest(s, 2) <= #[trigger] axis(s[k], 2) <= highest(s, 2),
                i <= n,
                *self == (Polygon { points: self.points, ..*old(self) }),
                self.points.points@.len() == n,
                forall|k: int|
                    0 <= k < i ==> #[trigger] self.points.points@[k] == (Point {
                        coord: (
                            (s[k].coord.0 - lx + x) as i32,
                            (s[k].coord.1 - ly + y) as i32,
                            (s[k].coord.2 - lz + z) as i32,
                        ),
                        ..s[k]
                    }),
                forall|k: int| i <= k < n ==> #[trigger] self.points.points@[k] == s[k],
            decreases n - i,
        {
            let mut p = self.points.points[i];
            proof {
                assert(axis(s[i as int], 0) == p.coord.0);
                assert(axis(s[i as int], 1) == p.coord.1);
                assert(axis(s[i as int], 2) == p.coord.2);
            }
            p.coord = (
                (p.coord.0 as i64 - lx + x as i64) as i32,
                (p.coord.1 as i64 - ly + y as i64) as i32,
                (p.coord.2 as i64 - lz + z as i64) as i32,
            );
            self.points.points.set(i, p);
            i = i + 1;
        }
    }

    /// Moves vertex `index` by a fixed-point offset.
    pub fn translate_point(&mut self, index: usize, x: i64, y: i64, z: i64)
        requires
            index < old(self).points.points@.len(),
        ensures
            *final(self) == (Polygon { points: final(self).points, ..*old(self) }),
            final(self).points.points@ == old(self).points.points@.update(
                index as int,
                Point {
                    coord: shifted3(old(self).points.points@[index as int].coord, (x, y, z)),
                    ..old(self).points.points@[index as int]
                },
            ),
    {
        let p = apply_motion(&Motion::Translate, (x, y, z), self.points.points[index]);
        self.points.points.set(index, p);
    }

    /// Sets the velocity of vertex `index`.
    pub fn set_velocity_point(&mut self, index: usize, x: i64, y: i64, z: i64)
        requires
            index < old(self).points.points@.len(),
        ensures
            *final(self) == (Polygon { points: final(self).points, ..*old(self) }),
            final(self).points.points@ == old(self).points.points@.update(
                index as int,
                Point { velocity: (x, y, z), ..old(self).points.points@[index as int] },
            ),
    {
        let p = apply_motion(&Motion::SetVelocity, (x, y, z), self.points.points[index]);
        self.points.points.set(index, p);
    }

    /// Adds to the velocity of vertex `index`.
    pub fn add_velocity_point(&mut self, index: usize, x: i64, y: i64, z: i64)
        requires
            index < old(self).points.points@.len(),
        ensures
            *final(self) == (Polygon { points: final(self).points, ..*old(self) }),
            final(self).points.points@ == old(self).points.points@.update(
                index as int,
                Point {
                    velocity: added3(old(self).points.points@[index as int].velocity, (x, y, z)),
                    ..old(self).points.points@[index as int]
                },
            ),
    {
        let p = apply_motion(&Motion::AddVelocity, (x, y, z), self.points.points[index]);
        self.points.points.set(index, p);
    }

    /// Sets the acceleration of vertex `index`.
    pub fn set_acceleration_point(&mut self, index: usize, x: i64, y: i64, z: i64)
        requires
            index < old(self).points.points@.len(),
        ensures
            *final(self) == (Polygon { points: final(self).points, ..*old(self) }),
            final(self).points.points@ == old(self).points.points@.update(
                index as int,
                Point { acceleration: (x, y, z), ..old(self).points.points@[index as int] },
            ),
    {
        let p = apply_motion(&Motion::SetAcceleration, (x, y, z), self.points.points[index]);
        self.points.points.set(index, p);
    }

    /// Adds to the acceleration of vertex `index`.
    pub fn add_acceleration_point(&mut self, index: usize, x: i64, y: i64, z: i64)
        requires
            index < old(self).points.points@.len(),
        ensures
            *final(self) == (Polygon { points: final(self).points, ..*old(self) }),
            final(self).points.points@ == old(self).points.points@.update(
                index as int,
                Point {
                    acceleration: added3(
                        old(self).points.points@[index as int].acceleration,
                        (x, y, z),
                    ),
                    ..old(self).points.points@[index as int]
                },
            ),
    {
        let p = apply_motion(&Motion::AddAcceleration, (x, y, z), self.points.points[index]);
        self.points.points.set(index, p);
    }

    /// The vertices moved so that the bounding box starts at the origin, with the size of the
    /// image that covers them.
    fn local_frame(&self) -> (r: (Vec<Point>, usize, usize))
        requires
            self.drawable(),
        ensures
            r.0@ == localized(self.points.points@),
            r.1 == self.span(0) + 1,
            r.2 == self.span(1) + 1,
            forall|i: int|
                0 <= i < r.0@.len() ==> 0 <= (#[trigger] r.0@[i]).coord.0 < r.1 && 0
                    <= r.0@[i].coord.1 < r.2,
    {
        let ghost s = self.points.points@;
        proof {
            lemma_extremes(s, 0);
            lemma_extremes(s, 1);
        }
        let lx = self.points.extreme(0, false);
        let ly = self.points.extreme(1, false);
        let hx = self.points.extreme(0, true);
        let hy = self.points.extreme(1, true);
        let w = (hx as i64 - lx as i64) as usize + 1;
        let h = (hy as i64 - ly as i64) as usize + 1;
        let mut local: Vec<Point> = Vec::new();
        let mut i: usize = 0;
        while i < self.points.points.len()
            invariant
                s == self.points.points@,
                i <= s.len(),
                lx == lowest(s, 0),
                ly == lowest(s, 1),
                highest(s, 0) - lowest(s, 0) < i32::MAX,
                highest(s, 1) - lowest(s, 1) < i32::MAX,
                forall|k: int| 0 <= k < s.len() ==> lowest(s, 0) <= #[trigger] axis(s[k], 0) <= highest(s, 0),
                forall|k: int| 0 <= k < s.len() ==> lowest(s, 1) <= #[trigger] axis(s[k], 1) <= highest(s, 1),
                local@ =~= localized(s).take(i as int),
            decreases s.len() - i,
        {
            let p = self.points.points[i];
            proof {
                assert(axis(s[i as int], 0) == p.coord.0);
                assert(axis(s[i as int], 1) == p.coord.1);
            }
            local.push(Point::new(p.coord.0 - lx, p.coord.1 - ly, 0));
            i = i + 1;
        }
        proof {
            assert(localized(s).take(s.len() as int) =~= localized(s));
            assert forall|k: int| 0 <= k < local@.len() implies 0 <= (#[trigger] local@[k]).coord.0 < w
                && 0 <= local@[k].coord.1 < h by {
                assert(lowest(s, 0) <= axis(s[k], 0) <= highest(s, 0));
                assert(lowest(s, 1) <= axis(s[k], 1) <= highest(s, 1));
            }
        }
        (local, w, h)
    }

    /// Rebuilds the image as the filled polygon on black.
    pub fn generate_image(&mut self)
        requires
            old(self).drawable(),
        ensures
            final(self).drawable(),
            final(self).shows(true),
            *final(self) == (Polygon { image: final(self).image, ..*old(self) }),
    {
        let (local, w, h) = self.local_frame();
        let mut image = Image::new(w, h);
        image.fill_fan(&local, self.color);
        self.image = image;
    }

    /// Rebuilds the image as the closed outline of the polygon on black.
    pub fn generate_image_hollow(&mut self)
        requires
            old(self).drawable(),
        ensures
            final(self).drawable(),
            final(self).shows(false),
            *final(self) == (Polygon { image: final(self).image, ..*old(self) }),
    {
        let (local, w, h) = self.local_frame();
        let mut image = Image::new(w, h);
        image.draw_outline(&local, self.color);
        self.image = image;
    }

    pub fn image(&self) -> (r: &Image)
        ensures
            *r == self.image,
    {
        &self.image
    }

    pub fn mode(&self) -> (r: DrawMode)
        ensures
            r == self.draw_mode,
    {
        self.draw_mode
    }

    pub fn filled(&self) -> (r: bool)
        ensures
            r == self.filled,
    {
        self.filled
    }
}

/// `sum / n` truncated toward zero, for a sum of `n` values of `i64`.
fn mean_of(sum: i128, n: usize) -> (r: i64)
    requires
        n > 0,
        i64::MIN * n <= sum <= i64::MAX * n,
    ensures
        r == trunc_div(sum as int, n as int),
{
    let d: i128 = n as i128;
    if sum >= 0 {
        proof {
            crate::engine::image::lemma_div_within(sum as int, n as int, 0, i64::MAX as int);
        }
        (sum / d) as i64
    } else {
        proof {
            crate::engine::image::lemma_div_within(-sum as int, n as int, 0, 0x8000_0000_0000_0000);
        }
        (-((-sum) / d)) as i64
    }
}

/// Every point one tick later.
pub open spec fn advance_all(s: Seq<Point>) -> Seq<Point> {
    Seq::new(s.len(), |i: int| s[i].advanced())
}

/// Every point given velocity `v`.
pub open spec fn with_velocity_all(s: Seq<Point>, v: (i64, i64, i64)) -> Seq<Point> {
    Seq::new(s.len(), |i: int| Point { velocity: v, ..s[i] })
}

/// A scene object: a box or a polygon.
pub enum GameObject {
    Rect(Rect),
    Polygon(Polygon),
}

impl GameObject {
    pub open spec fn wf(&self) -> bool {
        match self {
            GameObject::Rect(r) => r.wf(),
            GameObject::Polygon(p) => p.wf(),
        }
    }

    /// Whether the object's image can be regenerated.
    pub open spec fn drawable(&self) -> bool {
        match self {
            GameObject::Rect(r) => r.wf(),
            GameObject::Polygon(p) => p.drawable(),
        }
    }

    /// The moving parts: a box moves as one point, a polygon as its vertices.
    pub open spec fn kinematics(&self) -> Seq<Point> {
        match self {
            GameObject::Rect(r) => seq![
                Point { coord: r.coord, velocity: r.velocity, acceleration: r.acceleration },
            ],
            GameObject::Polygon(p) => p.points.points@,
        }
    }

    /// Whether `other` is this object with only its motion (positions, velocities,
    /// accelerations) changed.
    pub open spec fn same_but_motion(&self, other: GameObject) -> bool {
        match (*self, other) {
            (GameObject::Rect(a), GameObject::Rect(b)) => b == Rect {
                coord: b.coord,
                velocity: b.velocity,
                acceleration: b.acceleration,
                ..a
            },
            (GameObject::Polygon(a), GameObject::Polygon(b)) => b == Polygon {
                points: b.points,
                ..a
            },
            _ => false,
        }
    }

    /// Whether `other` is this object with only its image changed.
    pub open spec fn same_but_image(&self, other: GameObject) -> bool {
        match (*self, other) {
            (GameObject::Rect(a), GameObject::Rect(b)) => b == Rect { image: b.image, ..a },
            (GameObject::Polygon(a), GameObject::Polygon(b)) => b == Polygon { image: b.image, ..a },
            _ => false,
        }
    }

    /// Smallest corner of the object's bounding box.
    pub open spec fn origin(&self) -> (int, int, int) {
        match self {
            GameObject::Rect(r) => (r.coord.0 as int, r.coord.1 as int, r.coord.2 as int),
            GameObject::Polygon(p) => (p.points.lo(0), p.points.lo(1), p.points.lo(2)),
        }
    }

    /// Extent of the object's bounding box.
    pub open spec fn extent(&self) -> (int, int, int) {
        match self {
            GameObject::Rect(r) => (r.width as int, r.height as int, r.depth as int),
            GameObject::Polygon(p) => (p.span(0), p.span(1), p.span(2)),
        }
    }

    /// Width and height of the object's regenerated image.
    pub open spec fn footprint(&self) -> (int, int) {
        match self {
            GameObject::Rect(r) => (r.width as int, r.height as int),
            GameObject::Polygon(p) => (p.span(0) + 1, p.span(1) + 1),
        }
    }

    /// Whether the regenerated image, placed at the object's origin, lies inside a frame of
    /// `width` x `height`.
    pub open spec fn fits(&self, width: int, height: int) -> bool {
        &&& 0 <= self.origin().0
        &&& 0 <= self.origin().1
        &&& self.origin().0 + self.footprint().0 <= width
        &&& self.origin().1 + self.footprint().1 <= height
    }

    /// Whether frame pixel (`r`, `c`) lies under the object's image placed at its origin.
    pub open spec fn covers(&self, r: int, c: int) -> bool {
        &&& self.origin().1 <= r < self.origin().1 + self.footprint().1
        &&& self.origin().0 <= c < self.origin().0 + self.footprint().0
    }

    /// Pixel (`r`, `c`) of the object's own image, filled or as an outline.
    pub open spec fn pixel(&self, filled: bool, r: int, c: int) -> u32 {
        match self {
            GameObject::Rect(o) => o.pixel(filled, r, c),
            GameObject::Polygon(o) => o.pixel(filled, r, c),
        }
    }

    pub open spec fn shows(&self, filled: bool) -> bool {
        match self {
            GameObject::Rect(o) => o.shows(filled),
            GameObject::Polygon(o) => o.shows(filled),
        }
    }

    pub open spec fn image_of(&self) -> Image {
        match self {
            GameObject::Rect(o) => o.image,
            GameObject::Polygon(o) => o.image,
        }
    }

    pub open spec fn mode_of(&self) -> DrawMode {
        match self {
            GameObject::Rect(o) => o.draw_mode,
            GameObject::Polygon(o) => o.draw_mode,
        }
    }

    pub open spec fn is_filled(&self) -> bool {
        match self {
            GameObject::Rect(o) => o.filled,
            GameObject::Polygon(o) => o.filled,
        }
    }

    /// Whether the object is well formed: a consistent image, and vertices for a polygon.
    pub fn well_formed(&self) -> (r: bool)
        ensures
            r == self.wf(),
    {
        match self {
            GameObject::Rect(o) => {
                let w = o.width as u128;
                let h = o.height as u128;
                assert(w * h <= 0xffff_ffff * 0xffff_ffff) by (nonlinear_arith)
                    requires
                        w <= 0xffff_ffff,
                        h <= 0xffff_ffff,
                ;
                o.image.well_formed() && w * h <= usize::MAX as u128
            },
            GameObject::Polygon(o) => o.image.well_formed() && o.points.points.len() > 0,
        }
    }

    /// Whether the object's image can be regenerated and placed inside a `width` x `height`
    /// frame.
    pub fn drawable_in(&self, width: usize, height: usize) -> (r: bool)
        requires
            self.wf(),
        ensures
            r == (self.drawable() && self.fits(width as int, height as int)),
    {
        let (fw, fh): (i64, i64) = match self {
            GameObject::Rect(o) => (o.width as i64, o.height as i64),
            GameObject::Polygon(o) => {
                proof {
                    lemma_extremes(o.points.points@, 0);
                    lemma_extremes(o.points.points@, 1);
                }
                let w = o.points.extreme(0, true) as i64 - o.points.extreme(0, false) as i64;
                let h = o.points.extreme(1, true) as i64 - o.points.extreme(1, false) as i64;
                if !(w < i32::MAX as i64 && h < i32::MAX as i64) {
                    return false;
                }
                let cells_w = w as u128 + 1;
                let cells_h = h as u128 + 1;
                assert(cells_w * cells_h <= 0x8000_0000 * 0x8000_0000) by (nonlinear_arith)
                    requires
                        cells_w <= 0x8000_0000,
                        cells_h <= 0x8000_0000,
                ;
                if cells_w * cells_h > usize::MAX as u128 {
                    return false;
                }
                (w + 1, h + 1)
            },
        };
        let (x, y, _) = self.coord();
        x >= 0 && y >= 0 && x as i128 + fw as i128 <= width as i128 && y as i128 + fh as i128
            <= height as i128
    }

    /// One tick for every moving part.
    pub fn update(&mut self)
        ensures
            old(self).same_but_motion(*final(self)),
            final(self).kinematics() == advance_all(old(self).kinematics()),
    {
        match self {
            GameObject::Rect(r) => r.update(),
            GameObject::Polygon(p) => p.update(),
        }
        assert(self.kinematics() =~= advance_all(old(self).kinematics()));
    }

    /// Gives every moving part the velocity (`x`, `y`, `z`).
    pub fn set_velocity(&mut self, x: i64, y: i64, z: i64)
        ensures
            old(self).same_but_motion(*final(self)),
            final(self).kinematics() == with_velocity_all(old(self).kinematics(), (x, y, z)),
    {
        match self {
            GameObject::Rect(r) => r.set_velocity(x, y, z),
            GameObject::Polygon(p) => p.set_velocity(x, y, z),
        }
        assert(self.kinematics() =~= with_velocity_all(old(self).kinematics(), (x, y, z)));
    }

    /// Adds (`x`, `y`, `z`) to the velocity of every moving part.
    pub fn add_velocity(&mut self, x: i64, y: i64, z: i64)
        ensures
            old(self).same_but_motion(*final(self)),
            final(self).kinematics() == Seq::new(
                old(self).kinematics().len(),
                |i: int|
                    Point {
                        velocity: added3(old(self).kinematics()[i].velocity, (x, y, z)),
                        ..old(self).kinematics()[i]
                    },
            ),
    {
        match self {
            GameObject::Rect(r) => r.add_velocity(x, y, z),
            GameObject::Polygon(p) => p.add_velocity(x, y, z),
        }
        assert(self.kinematics() =~= Seq::new(
            old(self).kinematics().len(),
            |i: int|
                Point {
                    velocity: added3(old(self).kinematics()[i].velocity, (x, y, z)),
                    ..old(self).kinematics()[i]
                },
        ));
    }

    /// Gives every moving part the acceleration (`x`, `y`, `z`).
    pub fn set_acceleration(&mut self, x: i64, y: i64, z: i64)
        ensures
            old(self).same_but_motion(*final(self)),
            final(self).kinematics() == Seq::new(
                old(self).kinematics().len(),
                |i: int| Point { acceleration: (x, y, z), ..old(self).kinematics()[i] },
            ),
    {
        match self {
            GameObject::Rect(r) => r.set_acceleration(x, y, z),
            GameObject::Polygon(p) => p.set_acceleration(x, y, z),
        }
        assert(self.kinematics() =~= Seq::new(
            old(self).kinematics().len(),
            |i: int| Point { acceleration: (x, y, z), ..old(self).kinematics()[i] },
        ));
    }

    /// Adds (`x`, `y`, `z`) to the acceleration of every moving part.
    pub fn add_acceleration(&mut self, x: i64, y: i64, z: i64)
        ensures
            old(self).same_but_motion(*final(self)),
            final(self).kinematics() == Seq::new(
                old(self).kinematics().len(),
                |i: int|
                    Point {
                        acceleration: added3(old(self).kinematics()[i].acceleration, (x, y, z)),
                        ..old(self).kinematics()[i]
                    },
            ),
    {
        match self {
            GameObject::Rect(r) => r.add_acceleration(x, y, z),
            GameObject::Polygon(p) => p.add_acceleration(x, y, z),
        }
        assert(self.kinematics() =~= Seq::new(
            old(self).kinematics().len(),
            |i: int|
                Point {
                    acceleration: added3(old(self).kinematics()[i].acceleration, (x, y, z)),
                    ..old(self).kinematics()[i]
                },
        ));
    }

    /// Moves every moving part by the fixed-point offset (`x`, `y`, `z`).
    pub fn translate(&mut self, x: i64, y: i64, z: i64)
        ensures
            old(self).same_but_motion(*final(self)),
            final(self).kinematics() == Seq::new(
                old(self).kinematics().len(),
                |i: int|
                    Point {
                        coord: shifted3(old(self).kinematics()[i].coord, (x, y, z)),
                        ..old(self).kinematics()[i]
                    },
            ),
    {
        match self {
            GameObject::Rect(r) => r.translate(x, y, z),
            GameObject::Polygon(p) => p.translate(x, y, z),
        }
        assert(self.kinematics() =~= Seq::new(
            old(self).kinematics().len(),
            |i: int|
                Point {
                    coord: shifted3(old(self).kinematics()[i].coord, (x, y, z)),
                    ..old(self).kinematics()[i]
                },
        ));
    }

    /// Moves the object rigidly so that its bounding box starts at (`x`, `y`, `z`).
    pub fn move_to(&mut self, x: i32, y: i32, z: i32)
        requires
            old(self).wf(),
            x + old(self).extent().0 <= i32::MAX,
            y + old(self).extent().1 <= i32::MAX,
            z + old(self).extent().2 <= i32::MAX,
        ensures
            old(self).same_but_motion(*final(self)),
            final(self).kinematics() == Seq::new(
                old(self).kinematics().len(),
                |i: int|
                    Point {
                        coord: (
                            (old(self).kinematics()[i].coord.0 - old(self).origin().0 + x) as i32,
                            (old(self).kinematics()[i].coord.1 - old(self).origin().1 + y) as i32,
                            (old(self).kinematics()[i].coord.2 - old(self).origin().2 + z) as i32,
                        ),
                        ..old(self).kinematics()[i]
                    },
            ),
    {
        match self {
            GameObject::Rect(r) => r.move_to(x, y, z),
            GameObject::Polygon(p) => p.move_to(x, y, z),
        }
        assert(self.kinematics() =~= Seq::new(
            old(self).kinematics().len(),
            |i: int|
                Point {
                    coord: (
                        (old(self).kinematics()[i].coord.0 - old(self).origin().0 + x) as i32,
                        (old(self).kinematics()[i].coord.1 - old(self).origin().1 + y) as i32,
                        (old(self).kinematics()[i].coord.2 - old(self).origin().2 + z) as i32,
                    ),
                    ..old(self).kinematics()[i]
                },
        ));
    }

    /// Smallest corner of the bounding box.
    pub fn coord(&self) -> (r: (i32, i32, i32))
        requires
            self.wf(),
        ensures
            (r.0 as int, r.1 as int, r.2 as int) == self.origin(),
    {
        proof {
            if let GameObject::Polygon(p) = self {
                lemma_extremes(p.points.points@, 0);
                lemma_extremes(p.points.points@, 1);
                lemma_extremes(p.points.points@, 2);
            }
        }
        match self {
            GameObject::Rect(o) => o.coord(),
            GameObject::Polygon(o) => o.coord(),
        }
    }

    /// Extent of the bounding box.
    pub fn size(&self) -> (r: (u32, u32, u32))
        requires
            self.wf(),
        ensures
            (r.0 as int, r.1 as int, r.2 as int) == self.extent(),
    {
        proof {
            if let GameObject::Polygon(p) = self {
                lemma_extremes(p.points.points@, 0);
                lemma_extremes(p.points.points@, 1);
                lemma_extremes(p.points.points@, 2);
            }
        }
        match self {
            GameObject::Rect(o) => o.size(),
            GameObject::Polygon(o) => o.size(),
        }
    }

    /// Velocity of a box, or mean velocity of a polygon's vertices (`None` without vertices).
    pub fn velocity(&self) -> (r: Option<(i64, i64, i64)>)
        ensures
            r == match self {
                GameObject::Rect(o) => Some(o.velocity),
                GameObject::Polygon(o) => if o.points.points@.len() == 0 {
                    None
                } else {
                    Some(
                        (
                            motion_mean(o.points.points@, 0, false),
                            motion_mean(o.points.points@, 1, false),
                            motion_mean(o.points.points@, 2, false),
                        ),
                    )
                },
            },
    {
        match self {
            GameObject::Rect(o) => Some(o.velocity()),
            GameObject::Polygon(o) => o.velocity(),
        }
    }

    /// Acceleration of a box, or mean acceleration of a polygon's vertices (`None` without
    /// vertices).
    pub fn acceleration(&self) -> (r: Option<(i64, i64, i64)>)
        ensures
            r == match self {
                GameObject::Rect(o) => Some(o.acceleration),
                GameObject::Polygon(o) => if o.points.points@.len() == 0 {
                    None
                } else {
                    Some(
                        (
                            motion_mean(o.points.points@, 0, true),
                            motion_mean(o.points.points@, 1, true),
                            motion_mean(o.points.points@, 2, true),
                        ),
                    )
                },
            },
    {
        match self {
            GameObject::Rect(o) => Some(o.acceleration()),
            GameObject::Polygon(o) => o.acceleration(),
        }
    }

    /// The object's collision body, kept at its current position.
    pub fn collision(&self) -> (r: CollisionBody)
        requires
            self.wf(),
        ensures
            r.wf(),
            r.lo() == self.origin(),
            r.extent() == self.extent(),
    {
        match self {
            GameObject::Rect(o) => CollisionBody::Rect(o.collision()),
            GameObject::Polygon(o) => CollisionBody::Polygon(o.collision()),
        }
    }

    /// Whether the bounding boxes of the two objects overlap on every axis.
    pub fn check_collision(&self, other: &GameObject) -> (r: bool)
        requires
            self.wf(),
            other.wf(),
        ensures
            r == boxes_overlap(self.origin(), self.extent(), other.origin(), other.extent()),
    {
        check_collision(&self.collision(), &other.collision())
    }

    pub fn image(&self) -> (r: &Image)
        ensures
            *r == self.image_of(),
    {
        match self {
            GameObject::Rect(o) => o.image(),
            GameObject::Polygon(o) => o.image(),
        }
    }

    /// Rebuilds the object's image, filled.
    pub fn generate_image(&mut self)
        requires
            old(self).drawable(),
        ensures
            final(self).drawable(),
            final(self).shows(true),
            old(self).same_but_image(*final(self)),
    {
        match self {
            GameObject::Rect(o) => o.generate_image(),
            GameObject::Polygon(o) => o.generate_image(),
        }
    }

    /// Rebuilds the object's image as an outline.
    pub fn generate_image_hollow(&mut self)
        requires
            old(self).drawable(),
        ensures
            final(self).drawable(),
            final(self).shows(false),
            old(self).same_but_image(*final(self)),
    {
        match self {
            GameObject::Rect(o) => o.generate_image_hollow(),
            GameObject::Polygon(o) => o.generate_image_hollow(),
        }
    }

    pub fn mode(&self) -> (r: DrawMode)
        ensures
            r == self.mode_of(),
    {
        match self {
            GameObject::Rect(o) => o.mode(),
            GameObject::Polygon(o) => o.mode(),
        }
    }

    pub fn filled(&self) -> (r: bool)
        ensures
            r == self.is_filled(),
    {
        match self {
            GameObject::Rect(o) => o.filled(),
            GameObject::Polygon(o) => o.filled(),
        }
    }
}

} // verus!
