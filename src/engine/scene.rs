use vstd::prelude::*;

use crate::engine::game::{
    advance_all, blend, shifted, with_velocity_all, GameObject, Point, SUBPIXELS,
};
use crate::engine::image::{on_line, Image};
use crate::linalg::MatrixError;

verus! {

/// Depth of the space a scene's objects may move in.
pub const SCENE_DEPTH: usize = 100;

/// Frame pixel (`r`, `c`) after compositing the first `k` objects, in order, over `bg`.
pub open spec fn layered(objs: Seq<GameObject>, k: int, bg: Image, r: int, c: int) -> u32
    decreases k,
{
    if k <= 0 {
        bg.px(r, c)
    } else {
        let o = objs[k - 1];
        let below = layered(objs, k - 1, bg, r, c);
        if o.covers(r, c) {
            blend(
                o.mode_of(),
                below,
                o.pixel(o.is_filled(), r - o.origin().1, c - o.origin().0),
            )
        } else {
            below
        }
    }
}

/// Whether an object whose bounding box starts at `lo` and has extent `ext` along one axis
/// stays within `[0, limit - 1]` along it after moving by the fixed-point velocity `v`.
pub open spec fn accepts(lo: int, ext: int, v: i64, limit: int) -> bool {
    let future = lo * SUBPIXELS + v;
    future >= 0 && future + ext * SUBPIXELS <= (limit - 1) * SUBPIXELS
}

/// The moving parts after a velocity request: each accepted axis in turn (x, then y, then z)
/// sets the velocity to that axis's component alone and advances one tick.
pub open spec fn velocity_request(s: Seq<Point>, ok: (bool, bool, bool), v: (i64, i64, i64)) -> Seq<
    Point,
> {
    let s1 = if ok.0 {
        advance_all(with_velocity_all(s, (v.0, 0, 0)))
    } else {
        s
    };
    let s2 = if ok.1 {
        advance_all(with_velocity_all(s1, (0, v.1, 0)))
    } else {
        s1
    };
    if ok.2 {
        advance_all(with_velocity_all(s2, (0, 0, v.2)))
    } else {
        s2
    }
}

/// Moving by a zero offset keeps a position.
pub proof fn lemma_shift_zero(c: i32)
    ensures
        shifted(c, 0) == c,
{
    if c >= 0 {
        crate::engine::image::lemma_div_between(c * 1000, 1000, c as int);
    } else {
        crate::engine::image::lemma_div_between(-(c * 1000), 1000, -c);
    }
}

/// After a velocity request, a rejected axis keeps every position along it, and an accepted
/// axis moves every position by exactly the requested velocity; a part at rest along a
/// rejected axis, without acceleration along it, stays at rest along it.
pub proof fn lemma_velocity_request_axes(
    s: Seq<Point>,
    ok: (bool, bool, bool),
    v: (i64, i64, i64),
    i: int,
)
    requires
        0 <= i < s.len(),
    ensures
        velocity_request(s, ok, v).len() == s.len(),
        !ok.0 ==> velocity_request(s, ok, v)[i].coord.0 == s[i].coord.0,
        !ok.1 ==> velocity_request(s, ok, v)[i].coord.1 == s[i].coord.1,
        !ok.2 ==> velocity_request(s, ok, v)[i].coord.2 == s[i].coord.2,
        ok.0 ==> velocity_request(s, ok, v)[i].coord.0 == shifted(s[i].coord.0, v.0),
        ok.1 ==> velocity_request(s, ok, v)[i].coord.1 == shifted(s[i].coord.1, v.1),
        ok.2 ==> velocity_request(s, ok, v)[i].coord.2 == shifted(s[i].coord.2, v.2),
        !ok.0 && s[i].velocity.0 == 0 && s[i].acceleration.0 == 0 ==> velocity_request(
            s,
            ok,
            v,
        )[i].velocity.0 == 0,
        !ok.1 && s[i].velocity.1 == 0 && s[i].acceleration.1 == 0 ==> velocity_request(
            s,
            ok,
            v,
        )[i].velocity.1 == 0,
        !ok.2 && s[i].velocity.2 == 0 && s[i].acceleration.2 == 0 ==> velocity_request(
            s,
            ok,
            v,
        )[i].velocity.2 == 0,
{
    let p0 = s[i];
    lemma_shift_zero(p0.coord.0);
    lemma_shift_zero(p0.coord.1);
    lemma_shift_zero(p0.coord.2);
    let s1 = if ok.0 {
        advance_all(with_velocity_all(s, (v.0, 0, 0)))
    } else {
        s
    };
    let p1 = s1[i];
    lemma_shift_zero(p1.coord.0);
    lemma_shift_zero(p1.coord.1);
    lemma_shift_zero(p1.coord.2);
    let s2 = if ok.1 {
        advance_all(with_velocity_all(s1, (0, v.1, 0)))
    } else {
        s1
    };
    let p2 = s2[i];
    lemma_shift_zero(p2.coord.0);
    lemma_shift_zero(p2.coord.1);
    lemma_shift_zero(p2.coord.2);
}

/// The frame and the objects drawn into it, in painting order.
pub struct Scene {
    pub image: Image,
    pub width: usize,
    pub height: usize,
    pub depth: usize,
    pub objects: Vec<GameObject>,
}

impl Scene {
    pub open spec fn wf(&self) -> bool {
        &&& self.image.wf()
        &&& self.image.width == self.width
        &&& self.image.height == self.height
        &&& forall|i: int| 0 <= i < self.objects@.len() ==> (#[trigger] self.objects@[i]).wf()
    }

    /// Whether every object can be regenerated and lies inside the frame.
    pub open spec fn renderable(&self) -> bool {
        forall|i: int|
            0 <= i < self.objects@.len() ==> (#[trigger] self.objects@[i]).drawable()
                && self.objects@[i].fits(self.width as int, self.height as int)
    }

    /// Whether every object can be regenerated and lies inside the frame.
    pub fn renderable_now(&self) -> (r: bool)
        requires
            self.wf(),
        ensures
            r == self.renderable(),
    {
        let mut i: usize = 0;
        while i < self.objects.len()
            invariant
                self.wf(),
                i <= self.objects@.len(),
                forall|k: int|
                    0 <= k < i ==> (#[trigger] self.objects@[k]).drawable() && self.objects@[k].fits(
                        self.width as int,
                        self.height as int,
                    ),
            decreases self.objects@.len() - i,
        {
            if !self.objects[i].drawable_in(self.width, self.height) {
                return false;
            }
            i = i + 1;
        }
        true
    }

    /// An empty scene with a black frame.
    pub fn new(width: usize, height: usize) -> (r: Scene)
        requires
            width <= u32::MAX,
            height <= u32::MAX,
            width * height <= usize::MAX,
        ensures
            r.wf(),
            r.width == width,
            r.height == height,
            r.depth == SCENE_DEPTH,
            r.objects@.len() == 0,
            forall|i: int, j: int| r.image.in_bounds(i, j) ==> #[trigger] r.image.px(i, j) == 0,
    {
        Scene {
            image: Image::new(width, height),
            width,
            height,
            depth: SCENE_DEPTH,
            objects: Vec::new(),
        }
    }

    /// Paints the whole frame with `color`.
    pub fn set_color(&mut self, color: u32)
        requires
            old(self).wf(),
        ensures
            final(self).wf(),
            *final(self) == (Scene { image: final(self).image, ..*old(self) }),
            final(self).image.width == old(self).image.width,
            final(self).image.height == old(self).image.height,
            forall|i: int, j: int|
                final(self).image.in_bounds(i, j) ==> #[trigger] final(self).image.px(i, j) == color,
    {
        let n = self.image.pixels.data.len();
        let mut k: usize = 0;
        while k < n
            invariant
                n == self.image.pixels.data@.len(),
                k <= n,
                self.image.wf(),
                *self == (Scene { image: self.image, ..*old(self) }),
                self.image.width == old(self).image.width,
                self.image.height == old(self).image.height,
                self.image.pixels.rows == old(self).image.pixels.rows,
                self.image.pixels.cols == old(self).image.pixels.cols,
                forall|m: int| 0 <= m < k ==> #[trigger] self.image.pixels.data@[m] == color,
            decreases n - k,
        {
            self.image.pixels.data.set(k, color);
            k = k + 1;
        }
        proof {
            assert forall|i: int, j: int| self.image.in_bounds(i, j) implies #[trigger] self.image.px(
                i,
                j,
            ) == color by {
                crate::linalg::lemma_index_in_range(self.height as int, self.width as int, i, j);
            }
        }
    }

    /// Paints the whole frame black.
    pub fn clear(&mut self)
        requires
            old(self).wf(),
        ensures
            final(self).wf(),
            *final(self) == (Scene { image: final(self).image, ..*old(self) }),
            final(self).image.width == old(self).image.width,
            final(self).image.height == old(self).image.height,
            forall|i: int, j: int|
                final(self).image.in_bounds(i, j) ==> #[trigger] final(self).image.px(i, j) == 0,
    {
        self.set_color(0x000000);
    }

    /// The frame in row-major order, ready to be presented.
    pub fn buffer(&self) -> (r: Vec<u32>)
        ensures
            r@ == self.image.pixels.data@,
    {
        self.image.flatten()
    }

    /// Stores `color` at column `x`, row `y`; outside the frame nothing changes and
    /// `IndexOutOfRange` is returned.
    pub fn set_pixel(&mut self, x: u32, y: u32, color: u32) -> (r: Result<(), MatrixError>)
        requires
            old(self).wf(),
        ensures
            final(self).wf(),
            *final(self) == (Scene { image: final(self).image, ..*old(self) }),
            final(self).image.pixels@ == old(self).image.pixels@.set(y as int, x as int, color),
            r is Ok <==> old(self).image.in_bounds(y as int, x as int),
    {
        self.image.set(y as usize, x as usize, color)
    }

    /// The pixel at column `x`, row `y`, or `IndexOutOfRange` outside the frame.
    pub fn get_pixel(&self, x: u32, y: u32) -> (r: Result<u32, MatrixError>)
        requires
            self.wf(),
        ensures
            r == self.image.pixels@.get(y as int, x as int),
    {
        self.image.get(y as usize, x as usize)
    }

    /// Plots a line into the frame.
    pub fn draw_line(&mut self, point1: &Point, point2: &Point, color: u32)
        requires
            old(self).wf(),
            old(self).image.in_bounds(point1.coord.1 as int, point1.coord.0 as int),
            old(self).image.in_bounds(point2.coord.1 as int, point2.coord.0 as int),
        ensures
            final(self).wf(),
            *final(self) == (Scene { image: final(self).image, ..*old(self) }),
            forall|r: int, c: int|
                old(self).image.in_bounds(r, c) ==> #[trigger] final(self).image.px(r, c) == if on_line(
                    point1.coord.0 as int,
                    point1.coord.1 as int,
                    point2.coord.0 as int,
                    point2.coord.1 as int,
                    c,
                    r,
                ) {
                    color
                } else {
                    old(self).image.px(r, c)
                },
    {
        self.image.draw_line(point1, point2, color);
    }

    /// Regenerates `obj`'s image, filled or as an outline, and composites it into the frame.
    pub fn draw_object_2d(&mut self, obj: &mut GameObject, filled: bool)
        requires
            old(self).wf(),
            old(obj).drawable(),
            old(obj).fits(old(self).width as int, old(self).height as int),
        ensures
            final(self).wf(),
            *final(self) == (Scene { image: final(self).image, ..*old(self) }),
            final(obj).shows(filled),
            old(obj).same_but_image(*final(obj)),
            forall|r: int, c: int|
                old(self).image.in_bounds(r, c) ==> #[trigger] final(self).image.px(r, c)
                    == if old(obj).covers(r, c) {
                    blend(
                        old(obj).mode_of(),
                        old(self).image.px(r, c),
                        old(obj).pixel(filled, r - old(obj).origin().1, c - old(obj).origin().0),
                    )
                } else {
                    old(self).image.px(r, c)
                },
    {
        if filled {
            self.image.draw_object_2d_filled(obj);
        } else {
            self.image.draw_object_2d_hollow(obj);
        }
    }

    /// Appends an object; later objects are painted over earlier ones.
    pub fn add_object(&mut self, obj: GameObject)
        requires
            old(self).wf(),
            obj.wf(),
        ensures
            final(self).wf(),
            *final(self) == (Scene { objects: final(self).objects, ..*old(self) }),
            final(self).objects@ == old(self).objects@.push(obj),
    {
        self.objects.push(obj);
        proof {
            assert forall|i: int| 0 <= i < self.objects@.len() implies (#[trigger] self.objects@[i]).wf() by {
                if i < old(self).objects@.len() {
                    assert(self.objects@[i] == old(self).objects@[i]);
                }
            }
        }
    }

    /// Composites every object, in insertion order, into the frame: each object's image is
    /// regenerated (filled or as an outline, as the object says) and blended at its origin with
    /// its draw mode.
    pub fn render(&mut self)
        requires
            old(self).wf(),
            old(self).renderable(),
        ensures
            final(self).wf(),
            final(self).renderable(),
            final(self).width == old(self).width,
            final(self).height == old(self).height,
            final(self).depth == old(self).depth,
            final(self).objects@.len() == old(self).objects@.len(),
            forall|i: int|
                0 <= i < old(self).objects@.len() ==> (#[trigger] old(self).objects@[i]).same_but_image(
                    final(self).objects@[i],
                ),
            forall|r: int, c: int|
                old(self).image.in_bounds(r, c) ==> #[trigger] final(self).image.px(r, c) == layered(
                    old(self).objects@,
                    old(self).objects@.len() as int,
                    old(self).image,
                    r,
                    c,
                ),
    {
        let n = self.objects.len();
        let mut i: usize = 0;
        while i < n
            invariant
                n == old(self).objects@.len(),
                i <= n,
                self.wf(),
                self.width == old(self).width,
                self.height == old(self).height,
                self.depth == old(self).depth,
                self.image.width == old(self).image.width,
                self.image.height == old(self).image.height,
                self.objects@.len() == n,
                forall|k: int|
                    0 <= k < i ==> (#[trigger] old(self).objects@[k]).same_but_image(
                        self.objects@[k],
                    ) && self.objects@[k].drawable(),
                forall|k: int| i <= k < n ==> #[trigger] self.objects@[k] == old(self).objects@[k],
                forall|k: int|
                    0 <= k < n ==> (#[trigger] old(self).objects@[k]).drawable() && old(
                        self,
                    ).objects@[k].fits(self.width as int, self.height as int),
                forall|r: int, c: int|
                    old(self).image.in_bounds(r, c) ==> #[trigger] self.image.px(r, c) == layered(
                        old(self).objects@,
                        i as int,
                        old(self).image,
                        r,
                        c,
                    ),
            decreases n - i,
        {
            let ghost prev = *self;
            let ghost o = old(self).objects@[i as int];
            assert(o.drawable() && o.fits(self.width as int, self.height as int));
            if self.objects[i].filled() {
                self.image.draw_object_2d_filled(&mut self.objects[i]);
            } else {
                self.image.draw_object_2d_hollow(&mut self.objects[i]);
            }
            proof {
                assert forall|r: int, c: int| old(self).image.in_bounds(r, c) implies #[trigger] self.image.px(
                    r,
                    c,
                ) == layered(old(self).objects@, i + 1, old(self).image, r, c) by {
                    assert(prev.image.in_bounds(r, c));
                    assert(prev.image.px(r, c) == layered(
                        old(self).objects@,
                        i as int,
                        old(self).image,
                        r,
                        c,
                    ));
                }
                assert forall|k: int| 0 <= k < self.objects@.len() implies (#[trigger] self.objects@[k]).wf() by {
                    if k != i {
                        assert(self.objects@[k] == prev.objects@[k]);
                    }
                }
            }
            i = i + 1;
        }
        proof {
            assert forall|k: int| 0 <= k < self.objects@.len() implies (#[trigger] self.objects@[k]).drawable()
                && self.objects@[k].fits(self.width as int, self.height as int) by {
                assert(old(self).objects@[k].same_but_image(self.objects@[k]));
            }
        }
    }

    /// Requests velocity (`x`, `y`, `z`) for object `index`. Each axis is checked against the
    /// object's position before the call: only if its bounding box, moved by that component,
    /// stays within `[0, extent - 1]` of the scene along that axis is the object given that
    /// component alone as its velocity and advanced one tick. Axes are handled in the order x,
    /// y, z and independently of one another.
    pub fn set_velocity(&mut self, index: usize, x: i64, y: i64, z: i64)
        requires
            old(self).wf(),
            index < old(self).objects@.len(),
        ensures
            final(self).wf(),
            *final(self) == (Scene { objects: final(self).objects, ..*old(self) }),
            final(self).objects@.len() == old(self).objects@.len(),
            forall|j: int|
                0 <= j < old(self).objects@.len() && j != index ==> #[trigger] final(self).objects@[j]
                    == old(self).objects@[j],
            old(self).objects@[index as int].same_but_motion(final(self).objects@[index as int]),
            ({
                let o = old(self).objects@[index as int];
                final(self).objects@[index as int].kinematics() == velocity_request(
                    o.kinematics(),
                    (
                        accepts(o.origin().0, o.extent().0, x, old(self).width as int),
                        accepts(o.origin().1, o.extent().1, y, old(self).height as int),
                        accepts(o.origin().2, o.extent().2, z, old(self).depth as int),
                    ),
                    (x, y, z),
                )
            }),
    {
        let ghost o = self.objects@[index as int];
        let (cx, cy, cz) = self.objects[index].coord();
        let (w, h, d) = self.objects[index].size();
        let s: i128 = SUBPIXELS as i128;
        let fx: i128 = cx as i128 * s + x as i128;
        let fy: i128 = cy as i128 * s + y as i128;
        let fz: i128 = cz as i128 * s + z as i128;
        let ok_x = fx >= 0 && fx + w as i128 * s <= (self.width as i128 - 1) * s;
        let ok_y = fy >= 0 && fy + h as i128 * s <= (self.height as i128 - 1) * s;
        let ok_z = fz >= 0 && fz + d as i128 * s <= (self.depth as i128 - 1) * s;
        let ghost k0 = o.kinematics();
        if ok_x {
            self.objects[index].set_velocity(x, 0, 0);
            self.objects[index].update();
        }
        let ghost k1 = self.objects@[index as int].kinematics();
        assert(k1 == if ok_x {
            advance_all(with_velocity_all(k0, (x, 0, 0)))
        } else {
            k0
        });
        if ok_y {
            self.objects[index].set_velocity(0, y, 0);
            self.objects[index].update();
        }
        let ghost k2 = self.objects@[index as int].kinematics();
        assert(k2 == if ok_y {
            advance_all(with_velocity_all(k1, (0, y, 0)))
        } else {
            k1
        });
        if ok_z {
            self.objects[index].set_velocity(0, 0, z);
            self.objects[index].update();
        }
        proof {
            assert forall|j: int| 0 <= j < self.objects@.len() implies (#[trigger] self.objects@[j]).wf() by {
                if j != index {
                    assert(self.objects@[j] == old(self).objects@[j]);
                }
            }
        }
    }
}

} // verus!
