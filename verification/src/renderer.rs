use vstd::prelude::*;

verus! {

use crate::fx::{tdiv, div_trunc, lemma_mul_bound, lemma_tdiv_bound, lemma_tdiv_nonneg};
use crate::vec3::{Vec3, V3, spec_sub, spec_dot, spec_norm_sq, spec_normalize, lemma_dot_bound};
use crate::scene::{Scene, RayM, HitInfo, HitM, Intersection, IntersectionM, hit_wf};
use crate::camera::spec_ray_dir;
use vstd::arithmetic::div_mod::lemma_multiply_divide_lt;

/// The fixed point light, five world units to the left, up, and toward the
/// viewer: (-5, 5, -5) in fixed point.
pub open spec fn spec_light() -> V3 {
    V3 { x: -327680, y: 327680, z: -327680 }
}

/// Lambertian grayscale shading: the cosine of the angle between the surface
/// normal and the direction toward the light, clamped at zero, scaled to a
/// byte and packed into the low three bytes (blue, then green, then red) of
/// a color word.  A hit at the light itself shades black.
pub open spec fn spec_shade(h: HitM) -> u32 {
    let lv = spec_sub(spec_light(), h.position);
    if spec_norm_sq(lv) < 1 {
        0u32
    } else {
        let k = spec_dot(h.normal, spec_normalize(lv));
        if k <= 0 {
            0u32
        } else {
            let c = tdiv(k * 255 + 2147483648, 4294967296);
            let c2: int = if c > 255 {
                255
            } else {
                c
            };
            (c2 * 65536 + c2 * 256 + c2) as u32
        }
    }
}

/// Shade one hit under the fixed light.
pub fn shade(h: &HitInfo) -> (c: u32)
    requires
        hit_wf(h@),
    ensures
        c == spec_shade(h@),
{
    let light = Vec3 { x: -327680, y: 327680, z: -327680 };
    let lv = light.sub(h.position);
    let n2 = lv.norm_sq_raw();
    if n2 < 1 {
        return 0;
    }
    let ld = lv.normalize();
    proof {
        lemma_dot_bound(h.normal@, ld@, 65536, 65536);
    }
    let k = h.normal.dot_raw(ld);
    if k <= 0 {
        return 0;
    }
    proof {
        lemma_mul_bound(k as int, 255, 12884901888, 255);
        lemma_tdiv_bound(k * 255 + 2147483648, 4294967296, 766);
        lemma_tdiv_nonneg(k * 255 + 2147483648, 4294967296);
    }
    let c = div_trunc(k * 255 + 2147483648, 4294967296);
    let c2 = if c > 255 {
        255
    } else {
        c
    };
    (c2 * 65536 + c2 * 256 + c2) as u32
}

/// The packed color of pixel `i` of a width-by-height frame: cast the camera
/// ray through the pixel, intersect the scene, shade the nearest hit, and
/// use black for a miss.
pub open spec fn spec_pixel(scene: Scene, w: int, h: int, i: int) -> u32 {
    let px = i % w;
    let py = i / w;
    let ray = RayM {
        origin: scene.camera.position@,
        direction: spec_ray_dir(scene.camera, px, py, w, h),
    };
    match scene.spec_intersect(ray) {
        IntersectionM::Hit(hit) => spec_shade(hit),
        IntersectionM::Miss => 0u32,
    }
}

/// Owns the pixel buffer and fills it one frame at a time.
pub struct Renderer {
    buffer: Vec<u32>,
    size: (u32, u32),
}

impl Renderer {
    /// The pixel buffer's contents, as a sequence of packed color words.
    pub closed spec fn spec_buffer(self) -> Seq<u32> {
        self.buffer@
    }

    /// The remembered viewport size.
    pub closed spec fn spec_size(self) -> (u32, u32) {
        self.size
    }

    /// The buffer holds exactly one packed color per pixel of the
    /// remembered size.
    pub closed spec fn wf(self) -> bool {
        self.buffer@.len() == self.size.0 as int * self.size.1 as int
    }

    pub fn new() -> (r: Renderer)
        ensures
            r.wf(),
            r.spec_size() == (0u32, 0u32),
            r.spec_buffer().len() == 0,
    {
        Renderer { buffer: Vec::new(), size: (0, 0) }
    }

    /// Render a full frame: reallocate the buffer if the viewport changed
    /// size, then write the shaded color of every pixel, each exactly once.
    /// Returns the buffer as a read-only slice.
    pub fn render(&mut self, scene: &Scene, width: u16, height: u16) -> (r: &[u32])
        requires
            old(self).wf(),
            scene.wf(),
        ensures
            final(self).wf(),
            final(self).spec_size() == (width as u32, height as u32),
            final(self).spec_buffer().len() == width as int * height as int,
            forall|i: int| 0 <= i < width as int * height as int ==> final(self).spec_buffer()[i]
                == spec_pixel(*scene, width as int, height as int, i),
            r@ == final(self).spec_buffer(),
    {
        let w = width as u32;
        let h = height as u32;
        proof {
            assert((w as int) * (h as int) < 4294967296) by (nonlinear_arith)
                requires
                    w <= 65535,
                    h <= 65535,
            ;
        }
        if self.size.0 != w || self.size.1 != h {
            self.size = (w, h);
            let n = (width as usize) * (height as usize);
            self.buffer.resize(n, 0);
        }
        let total: u32 = w * h;
        let mut index: u32 = 0;
        while index < total
            invariant
                self.size == (w, h),
                self.buffer@.len() == w as int * h as int,
                w == width as u32,
                h == height as u32,
                total == w as int * h as int,
                scene.wf(),
                0 <= index <= total,
                forall|j: int| 0 <= j < index ==> self.buffer@[j] == spec_pixel(
                    *scene,
                    w as int,
                    h as int,
                    j,
                ),
            decreases total - index,
        {
            proof {
                assert(w >= 1) by (nonlinear_arith)
                    requires
                        index < total,
                        index >= 0,
                        total == w as int * h as int,
                        w >= 0,
                ;
                assert(h >= 1) by (nonlinear_arith)
                    requires
                        index < total,
                        index >= 0,
                        total == w as int * h as int,
                        h >= 0,
                ;
                lemma_multiply_divide_lt(index as int, w as int, h as int);
                assert(w as int * h as int == total);
            }
            let px = index % w;
            let py = index / w;
            let ray = scene.camera.generate_ray(px, py, w, h);
            let hit = scene.intersect(&ray);
            let val = match hit {
                Intersection::Hit(info) => shade(&info),
                Intersection::Miss => 0u32,
            };
            self.buffer[index as usize] = val;
            index = index + 1;
        }
        self.buffer.as_slice()
    }
}

/// Rendering is a pure function of the scene and the viewport: any two
/// buffers whose pixels each hold the specified color for the same scene and
/// dimensions are identical.
pub proof fn lemma_render_deterministic(scene: Scene, w: int, h: int, b1: Seq<u32>, b2: Seq<u32>)
    requires
        b1.len() == w * h,
        b2.len() == w * h,
        forall|i: int| 0 <= i < w * h ==> b1[i] == spec_pixel(scene, w, h, i),
        forall|i: int| 0 <= i < w * h ==> b2[i] == spec_pixel(scene, w, h, i),
    ensures
        b1 == b2,
{
    assert(b1 =~= b2);
}

} // verus!
