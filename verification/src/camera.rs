use vstd::prelude::*;

verus! {

use crate::fx::{SCALE, Q_MIN, COORD_MAX, tdiv, div_trunc, lemma_mul_bound, lemma_tdiv_bound};
use crate::vec3::{
    Vec3, V3, bounded, is_unit, spec_add, spec_sub, spec_scale, spec_cross, spec_norm_sq,
    spec_normalize, lemma_cross_bound, lemma_scale_bound,
};
use crate::scene::{Ray, RayM};

/// Largest aspect ratio accepted at camera construction: 16:1 in fixed point.
pub const ASPECT_MAX: i64 = 1048576;

/// World "up": the +y axis, one unit long.
pub open spec fn spec_world_up() -> V3 {
    V3 { x: 0, y: SCALE as int, z: 0 }
}

/// The unnormalized viewing direction, target minus eye.
pub open spec fn spec_view_vec(p: V3, l: V3) -> V3 {
    spec_sub(l, p)
}

pub open spec fn spec_forward_axis(p: V3, l: V3) -> V3 {
    spec_normalize(spec_view_vec(p, l))
}

/// Sideways seed vector: viewing direction crossed with world up.
pub open spec fn spec_left_vec(p: V3, l: V3) -> V3 {
    spec_cross(spec_forward_axis(p, l), spec_world_up())
}

/// Up seed: the sideways seed crossed back with the viewing direction, which
/// tilts world up into the plane orthogonal to the view.
pub open spec fn spec_up_vec(p: V3, l: V3) -> V3 {
    spec_cross(spec_left_vec(p, l), spec_forward_axis(p, l))
}

pub open spec fn spec_up_seed(p: V3, l: V3) -> V3 {
    spec_normalize(spec_up_vec(p, l))
}

pub open spec fn spec_right_vec(p: V3, l: V3) -> V3 {
    spec_cross(spec_forward_axis(p, l), spec_up_seed(p, l))
}

pub open spec fn spec_right_axis(p: V3, l: V3) -> V3 {
    spec_normalize(spec_right_vec(p, l))
}

/// The final up axis, recomputed from right and forward so that rounding
/// cannot leave the basis visibly skewed.
pub open spec fn spec_up_cross(p: V3, l: V3) -> V3 {
    spec_cross(spec_right_axis(p, l), spec_forward_axis(p, l))
}

pub open spec fn spec_up_axis(p: V3, l: V3) -> V3 {
    spec_normalize(spec_up_cross(p, l))
}

/// The look-at basis is well defined: the eye is at least a sixteenth of a
/// unit from the target, and the view direction is far enough from world up
/// that every basis vector keeps a usable length.
pub open spec fn camera_ok(p: V3, l: V3) -> bool {
    &&& spec_norm_sq(spec_view_vec(p, l)) >= Q_MIN * Q_MIN
    &&& spec_norm_sq(spec_left_vec(p, l)) >= Q_MIN * Q_MIN
    &&& spec_norm_sq(spec_up_vec(p, l)) >= Q_MIN * Q_MIN
    &&& spec_norm_sq(spec_right_vec(p, l)) >= Q_MIN * Q_MIN
    &&& spec_norm_sq(spec_up_cross(p, l)) >= Q_MIN * Q_MIN
}

/// A pinhole camera: eye position and the unit basis of its look-at frame,
/// with the viewport aspect ratio baked in.
#[derive(Clone, Copy, PartialEq, Eq, Structural, Debug)]
pub struct Camera {
    pub position: Vec3,
    pub forward: Vec3,
    pub right: Vec3,
    pub up: Vec3,
    pub aspect: i64,
}

/// `c` is exactly the camera that `Camera::new(p, l, aspect)` builds.
pub open spec fn camera_built(c: Camera, p: V3, l: V3, aspect: int) -> bool {
    &&& c.position@ == p
    &&& c.aspect == aspect
    &&& c.forward@ == spec_forward_axis(p, l)
    &&& c.right@ == spec_right_axis(p, l)
    &&& c.up@ == spec_up_axis(p, l)
    &&& c.wf()
}

/// Normalized device x of a pixel column: (px - width/2) / width, in fixed
/// point, spanning half a unit either side of the view axis.
pub open spec fn spec_ndc_x(px: int, w: int) -> int {
    tdiv((px - w / 2) * SCALE, w)
}

/// Normalized device y of a pixel row, negated because row 0 is the top.
pub open spec fn spec_ndc_y(py: int, h: int) -> int {
    -tdiv((py - h / 2) * SCALE, h)
}

/// World-space direction of the ray through pixel (px, py): forward plus the
/// device offsets along right (stretched by the aspect ratio) and up, then
/// normalized.  A degenerate offset sum falls back to the forward axis, so
/// the direction is a unit vector in every case.
pub open spec fn spec_ray_dir(c: Camera, px: int, py: int, w: int, h: int) -> V3 {
    let xn = spec_ndc_x(px, w);
    let yn = spec_ndc_y(py, h);
    let cx = tdiv(xn * c.aspect, SCALE as int);
    let v = spec_add(spec_add(spec_scale(c.right@, cx), spec_scale(c.up@, yn)), c.forward@);
    if spec_norm_sq(v) >= Q_MIN * Q_MIN {
        spec_normalize(v)
    } else {
        c.forward@
    }
}

/// The ray through the center pixel of any viewport points along the
/// camera's look direction: both device offsets vanish there, so the ray
/// direction is exactly the forward axis, renormalized.
pub proof fn lemma_center_ray_is_forward(c: Camera, w: int, h: int)
    requires
        c.wf(),
        1 <= w,
        1 <= h,
    ensures
        spec_ray_dir(c, w / 2, h / 2, w, h) == spec_normalize(c.forward@),
{
    vstd::arithmetic::div_mod::lemma_div_of0(w);
    vstd::arithmetic::div_mod::lemma_div_of0(h);
    vstd::arithmetic::div_mod::lemma_div_of0(SCALE as int);
    assert(spec_ndc_x(w / 2, w) == 0);
    assert(spec_ndc_y(h / 2, h) == 0);
    let v = spec_add(
        spec_add(spec_scale(c.right@, 0), spec_scale(c.up@, 0)),
        c.forward@,
    );
    assert(spec_scale(c.right@, 0) == (V3 { x: 0, y: 0, z: 0 }));
    assert(spec_scale(c.up@, 0) == (V3 { x: 0, y: 0, z: 0 }));
    assert(v == c.forward@);
    assert(spec_norm_sq(v) >= Q_MIN * Q_MIN);
}

impl Camera {
    /// Eye within the world bounds, a unit look-at basis, a positive aspect.
    pub open spec fn wf(self) -> bool {
        &&& bounded(self.position@, COORD_MAX as int)
        &&& is_unit(self.forward@)
        &&& is_unit(self.right@)
        &&& is_unit(self.up@)
        &&& 0 < self.aspect <= ASPECT_MAX
    }

    /// Build the look-at frame for an eye at `position` looking toward
    /// `lookat`: forward along the view, a sideways seed from world up, and
    /// right and up re-orthogonalized and normalized from it.  Returns None
    /// when the frame degenerates (eye too close to the target, or looking
    /// straight up or down).
    pub fn new(position: Vec3, lookat: Vec3, aspect_ratio: i64) -> (r: Option<Camera>)
        requires
            bounded(position@, COORD_MAX as int),
            bounded(lookat@, COORD_MAX as int),
            0 < aspect_ratio <= ASPECT_MAX,
        ensures
            match r {
                Some(c) => camera_built(c, position@, lookat@, aspect_ratio as int)
                    && camera_ok(position@, lookat@),
                None => !camera_ok(position@, lookat@),
            },
    {
        let d = lookat.sub(position);
        let n2d = d.norm_sq_raw();
        if n2d < Q_MIN * Q_MIN {
            return None;
        }
        let f = d.normalize();
        let world_up = Vec3 { x: 0, y: SCALE, z: 0 };
        proof {
            lemma_cross_bound(f@, world_up@, 65536, 65536, 131072);
        }
        let lv = f.cross(world_up);
        let n2l = lv.norm_sq_raw();
        if n2l < Q_MIN * Q_MIN {
            return None;
        }
        proof {
            lemma_cross_bound(lv@, f@, 131072, 65536, 262144);
        }
        let upv = lv.cross(f);
        let n2u = upv.norm_sq_raw();
        if n2u < Q_MIN * Q_MIN {
            return None;
        }
        let up0 = upv.normalize();
        proof {
            lemma_cross_bound(f@, up0@, 65536, 65536, 131072);
        }
        let sv = f.cross(up0);
        let n2s = sv.norm_sq_raw();
        if n2s < Q_MIN * Q_MIN {
            return None;
        }
        let s = sv.normalize();
        proof {
            lemma_cross_bound(s@, f@, 65536, 65536, 131072);
        }
        let uv = s.cross(f);
        let n2uv = uv.norm_sq_raw();
        if n2uv < Q_MIN * Q_MIN {
            return None;
        }
        let u = uv.normalize();
        Some(Camera { position, forward: f, right: s, up: u, aspect: aspect_ratio })
    }

    /// Cast the ray through pixel (px, py) of a width-by-height viewport.
    /// The direction is always a unit vector; the origin is the eye.
    pub fn generate_ray(&self, px: u32, py: u32, width: u32, height: u32) -> (r: Ray)
        requires
            self.wf(),
            0 < width,
            0 < height,
            px < width,
            py < height,
        ensures
            r@ == (RayM {
                origin: self.position@,
                direction: spec_ray_dir(*self, px as int, py as int, width as int, height as int),
            }),
            r.origin == self.position,
            is_unit(r.direction@),
    {
        let w = width as i64;
        let h = height as i64;
        let xoff = px as i64 - w / 2;
        let yoff = py as i64 - h / 2;
        proof {
            lemma_mul_bound(xoff as int, SCALE as int, w as int, SCALE as int);
            lemma_tdiv_bound(xoff * SCALE, w as int, SCALE as int);
            lemma_mul_bound(yoff as int, SCALE as int, h as int, SCALE as int);
            lemma_tdiv_bound(yoff * SCALE, h as int, SCALE as int);
        }
        let xn = div_trunc(xoff * SCALE, w);
        let yn0 = div_trunc(yoff * SCALE, h);
        let yn = -yn0;
        proof {
            lemma_mul_bound(xn as int, self.aspect as int, 65536, 1048576);
            lemma_tdiv_bound(xn * self.aspect, 65536, 1048576);
        }
        let cx = div_trunc(xn * self.aspect, SCALE);
        proof {
            lemma_scale_bound(self.right@, cx as int, 65536, 1048576, 1048576);
            lemma_scale_bound(self.up@, yn as int, 65536, 65536, 65536);
        }
        let rterm = self.right.scale(cx);
        let uterm = self.up.scale(yn);
        let v = rterm.add(uterm).add(self.forward);
        let n2v = v.norm_sq_raw();
        let dir = if n2v >= Q_MIN * Q_MIN {
            v.normalize()
        } else {
            self.forward
        };
        Ray { origin: self.position, direction: dir }
    }
}

} // verus!
