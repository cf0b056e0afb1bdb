use vstd::prelude::*;

verus! {

use crate::fx::{SCALE, Q_MIN, T_LIMIT, COORD_MAX, POS_MAX, tdiv, div_trunc, isqrt, sqrt_floor, lemma_mul_bound, lemma_tdiv_bound};
use crate::vec3::{
    Vec3, V3, bounded, is_unit, spec_add, spec_sub, spec_scale, spec_dot, spec_norm_sq,
    spec_normalize, lemma_dot_bound, lemma_scale_bound,
};
use crate::camera::Camera;

/// A dot product of a unit normal with a unit ray direction below this
/// magnitude (one ten-thousandth, in squared fixed-point steps) counts as
/// parallel to the plane.
pub const PARALLEL_EPS: i64 = 429496;

/// A ray: origin plus direction, parameterized as origin + direction * t.
#[derive(Clone, Copy, PartialEq, Eq, Structural, Debug)]
pub struct Ray {
    pub origin: Vec3,
    pub direction: Vec3,
}

/// Model of a ray over unbounded integers.
pub struct RayM {
    pub origin: V3,
    pub direction: V3,
}

impl View for Ray {
    type V = RayM;

    open spec fn view(&self) -> RayM {
        RayM { origin: self.origin@, direction: self.direction@ }
    }
}

/// Rays handed to intersection tests come from the camera: origin is a world
/// coordinate and the direction was normalized by its producer.
pub open spec fn ray_wf(r: RayM) -> bool {
    &&& bounded(r.origin, COORD_MAX as int)
    &&& is_unit(r.direction)
}

/// Where a ray met a surface: the point, the surface normal there, and the
/// ray parameter t of the hit.
#[derive(Clone, Copy, PartialEq, Eq, Structural, Debug)]
pub struct HitInfo {
    pub position: Vec3,
    pub normal: Vec3,
    pub distance: i64,
}

/// Model of a hit over unbounded integers.
pub struct HitM {
    pub position: V3,
    pub normal: V3,
    pub distance: int,
}

impl View for HitInfo {
    type V = HitM;

    open spec fn view(&self) -> HitM {
        HitM { position: self.position@, normal: self.normal@, distance: self.distance as int }
    }
}

/// Hits report a representable point, a rounded unit normal, and a
/// nonnegative parameter within the fixed-point range.
pub open spec fn hit_wf(h: HitM) -> bool {
    &&& bounded(h.position, POS_MAX as int)
    &&& bounded(h.normal, SCALE as int)
    &&& 0 <= h.distance <= T_LIMIT
}

/// The outcome of an intersection test: no intersection is a normal result,
/// not an error.
#[derive(Clone, Copy, PartialEq, Eq, Structural, Debug)]
pub enum Intersection {
    Hit(HitInfo),
    Miss,
}

/// Model of an intersection outcome.
pub enum IntersectionM {
    Hit(HitM),
    Miss,
}

impl View for Intersection {
    type V = IntersectionM;

    open spec fn view(&self) -> IntersectionM {
        match *self {
            Intersection::Hit(h) => IntersectionM::Hit(h@),
            Intersection::Miss => IntersectionM::Miss,
        }
    }
}

pub open spec fn intersection_wf(r: IntersectionM) -> bool {
    match r {
        IntersectionM::Hit(h) => hit_wf(h),
        IntersectionM::Miss => true,
    }
}

/// A sphere: center position and radius, both in fixed-point world units.
#[derive(Clone, Copy, PartialEq, Eq, Structural, Debug)]
pub struct Sphere {
    pub position: Vec3,
    pub radius: i64,
}

pub struct SphereM {
    pub position: V3,
    pub radius: int,
}

impl View for Sphere {
    type V = SphereM;

    open spec fn view(&self) -> SphereM {
        SphereM { position: self.position@, radius: self.radius as int }
    }
}

pub open spec fn sphere_wf(s: SphereM) -> bool {
    &&& bounded(s.position, COORD_MAX as int)
    &&& 0 <= s.radius <= COORD_MAX
}

/// An infinite plane through `position` with unit normal `normal`; the caller
/// must supply a unit-length normal.
#[derive(Clone, Copy, PartialEq, Eq, Structural, Debug)]
pub struct Plane {
    pub position: Vec3,
    pub normal: Vec3,
}

pub struct PlaneM {
    pub position: V3,
    pub normal: V3,
}

impl View for Plane {
    type V = PlaneM;

    open spec fn view(&self) -> PlaneM {
        PlaneM { position: self.position@, normal: self.normal@ }
    }
}

pub open spec fn plane_wf(p: PlaneM) -> bool {
    &&& bounded(p.position, COORD_MAX as int)
    &&& is_unit(p.normal)
}

/// The closed set of primitive shapes.
#[derive(Clone, Copy, PartialEq, Eq, Structural, Debug)]
pub enum Object {
    Sphere(Sphere),
    Plane(Plane),
}

pub enum ObjectM {
    Sphere(SphereM),
    Plane(PlaneM),
}

impl View for Object {
    type V = ObjectM;

    open spec fn view(&self) -> ObjectM {
        match *self {
            Object::Sphere(s) => ObjectM::Sphere(s@),
            Object::Plane(p) => ObjectM::Plane(p@),
        }
    }
}

pub open spec fn object_wf(o: ObjectM) -> bool {
    match o {
        ObjectM::Sphere(s) => sphere_wf(s),
        ObjectM::Plane(p) => plane_wf(p),
    }
}

/// Anything a ray can be tested against.  `intersectable_wf` is the
/// well-formedness each implementor asks of itself before being tested.
pub trait Intersectable {
    spec fn intersectable_wf(&self) -> bool;

    fn intersect(&self, ray: &Ray) -> (r: Intersection)
        requires
            self.intersectable_wf(),
            ray_wf(ray@),
    ;
}

/// Ray-sphere test: project the center onto the ray, reject spheres whose
/// center lies behind the origin, compare the squared perpendicular distance
/// against the squared radius, and keep the near root of the chord.  Only
/// hits with a nonnegative parameter count: a ray that starts inside the
/// sphere (near root behind the origin) misses.
pub open spec fn spec_sphere_intersect(s: SphereM, ray: RayM) -> IntersectionM {
    let l = spec_sub(s.position, ray.origin);
    let tca = tdiv(spec_dot(l, ray.direction), SCALE as int);
    if tca < 0 {
        IntersectionM::Miss
    } else {
        let d2 = spec_dot(l, l) - tca * tca;
        let r2 = s.radius * s.radius;
        if d2 > r2 {
            IntersectionM::Miss
        } else {
            let thc = sqrt_floor(r2 - d2);
            let t0 = tca - thc;
            if t0 < 0 {
                IntersectionM::Miss
            } else {
                let pos = spec_add(ray.origin, spec_scale(ray.direction, t0));
                let nv = spec_sub(pos, s.position);
                if spec_norm_sq(nv) < 1 {
                    IntersectionM::Miss
                } else {
                    IntersectionM::Hit(
                        HitM { position: pos, normal: spec_normalize(nv), distance: t0 },
                    )
                }
            }
        }
    }
}

/// Ray-plane test: reject near-parallel rays, solve for the crossing
/// parameter, and report the true crossing point and parameter; crossings
/// behind the origin miss, and so do the near-grazing ones whose parameter
/// exceeds the fixed-point cap T_LIMIT (a machine range limit, far past any
/// representable object).
pub open spec fn spec_plane_intersect(p: PlaneM, ray: RayM) -> IntersectionM {
    let denom = spec_dot(p.normal, ray.direction);
    if -PARALLEL_EPS <= denom <= PARALLEL_EPS {
        IntersectionM::Miss
    } else {
        let t = tdiv(spec_dot(spec_sub(p.position, ray.origin), p.normal) * SCALE, denom);
        if t < 0 || t > T_LIMIT {
            IntersectionM::Miss
        } else {
            IntersectionM::Hit(
                HitM {
                    position: spec_add(ray.origin, spec_scale(ray.direction, t)),
                    normal: p.normal,
                    distance: t,
                },
            )
        }
    }
}

pub open spec fn spec_object_intersect(o: ObjectM, ray: RayM) -> IntersectionM {
    match o {
        ObjectM::Sphere(s) => spec_sphere_intersect(s, ray),
        ObjectM::Plane(p) => spec_plane_intersect(p, ray),
    }
}

impl Sphere {
    pub fn intersect(&self, ray: &Ray) -> (r: Intersection)
        requires
            sphere_wf(self@),
            ray_wf(ray@),
        ensures
            r@ == spec_sphere_intersect(self@, ray@),
            intersection_wf(r@),
            match r@ {
                IntersectionM::Hit(h) => spec_norm_sq(spec_sub(h.position, self@.position))
                    >= Q_MIN * Q_MIN ==> is_unit(h.normal),
                IntersectionM::Miss => true,
            },
    {
        let l = self.position.sub(ray.origin);
        proof {
            lemma_dot_bound(l@, ray.direction@, 134217728, 65536);
            lemma_tdiv_bound(spec_dot(l@, ray.direction@), 65536, 402653184);
        }
        let dlv = l.dot_raw(ray.direction);
        let tca = div_trunc(dlv, SCALE);
        if tca < 0 {
            return Intersection::Miss;
        }
        proof {
            lemma_dot_bound(l@, l@, 134217728, 134217728);
            lemma_mul_bound(tca as int, tca as int, 402653184, 402653184);
            lemma_mul_bound(self.radius as int, self.radius as int, 67108864, 67108864);
            assert(spec_dot(l@, l@) >= 0) by (nonlinear_arith);
        }
        let ll = l.dot_raw(l);
        let d2 = ll - tca * tca;
        let r2 = self.radius * self.radius;
        if d2 > r2 {
            return Intersection::Miss;
        }
        let arg = r2 - d2;
        let thc = isqrt(arg);
        proof {
            assert(thc <= 1073741824) by (nonlinear_arith)
                requires
                    0 <= thc,
                    thc * thc <= arg,
                    arg <= 200000000000000000,
            ;
        }
        let t0 = tca - thc;
        if t0 < 0 {
            return Intersection::Miss;
        }
        proof {
            lemma_scale_bound(ray.direction@, t0 as int, 65536, 402653184, 402653184);
        }
        let pos = ray.origin.add(ray.direction.scale(t0));
        let nv = pos.sub(self.position);
        let n2v = nv.norm_sq_raw();
        if n2v < 1 {
            return Intersection::Miss;
        }
        let normal = nv.normalize();
        Intersection::Hit(HitInfo { position: pos, normal, distance: t0 })
    }
}

impl Intersectable for Sphere {
    open spec fn intersectable_wf(&self) -> bool {
        sphere_wf(self@)
    }

    fn intersect(&self, ray: &Ray) -> Intersection {
        Sphere::intersect(self, ray)
    }
}

impl Plane {
    pub fn intersect(&self, ray: &Ray) -> (r: Intersection)
        requires
            plane_wf(self@),
            ray_wf(ray@),
        ensures
            r@ == spec_plane_intersect(self@, ray@),
            intersection_wf(r@),
    {
        proof {
            lemma_dot_bound(self.normal@, ray.direction@, 65536, 65536);
        }
        let denom = self.normal.dot_raw(ray.direction);
        if -PARALLEL_EPS <= denom && denom <= PARALLEL_EPS {
            return Intersection::Miss;
        }
        let po = self.position.sub(ray.origin);
        proof {
            lemma_dot_bound(po@, self.normal@, 134217728, 65536);
            lemma_mul_bound(spec_dot(po@, self.normal@), 65536, 26388279066624, 65536);
        }
        let num = po.dot_raw(self.normal);
        let t = div_trunc(num * SCALE, denom);
        if t < 0 || t > T_LIMIT {
            return Intersection::Miss;
        }
        proof {
            lemma_scale_bound(ray.direction@, t as int, 65536, T_LIMIT as int, T_LIMIT as int);
        }
        let pos = ray.origin.add(ray.direction.scale(t));
        Intersection::Hit(HitInfo { position: pos, normal: self.normal, distance: t })
    }
}

impl Intersectable for Plane {
    open spec fn intersectable_wf(&self) -> bool {
        plane_wf(self@)
    }

    fn intersect(&self, ray: &Ray) -> Intersection {
        Plane::intersect(self, ray)
    }
}

impl Object {
    pub fn intersect(&self, ray: &Ray) -> (r: Intersection)
        requires
            object_wf(self@),
            ray_wf(ray@),
        ensures
            r@ == spec_object_intersect(self@, ray@),
            intersection_wf(r@),
    {
        match self {
            Object::Sphere(s) => s.intersect(ray),
            Object::Plane(p) => p.intersect(ray),
        }
    }
}

impl Intersectable for Object {
    open spec fn intersectable_wf(&self) -> bool {
        object_wf(self@)
    }

    fn intersect(&self, ray: &Ray) -> Intersection {
        Object::intersect(self, ray)
    }
}

/// Of an accumulated result and a candidate, keep the strictly nearer hit;
/// ties keep the accumulated one, so earlier objects win ties.
pub open spec fn spec_nearer(acc: IntersectionM, cand: IntersectionM) -> IntersectionM {
    match cand {
        IntersectionM::Miss => acc,
        IntersectionM::Hit(hc) => match acc {
            IntersectionM::Miss => cand,
            IntersectionM::Hit(ha) => if hc.distance < ha.distance {
                cand
            } else {
                acc
            },
        },
    }
}

/// Nearest hit among the first `n` objects, folded left in list order.
pub open spec fn spec_scene_prefix(objects: Seq<Object>, ray: RayM, n: int) -> IntersectionM
    decreases n,
{
    if n <= 0 {
        IntersectionM::Miss
    } else {
        spec_nearer(
            spec_scene_prefix(objects, ray, n - 1),
            spec_object_intersect(objects[n - 1]@, ray),
        )
    }
}

/// `r` is at least as near as another outcome: any hit it is compared with
/// forces `r` to be a hit no farther away.
pub open spec fn dominates(r: IntersectionM, other: IntersectionM) -> bool {
    match other {
        IntersectionM::Miss => true,
        IntersectionM::Hit(h) => match r {
            IntersectionM::Hit(rh) => rh.distance <= h.distance,
            IntersectionM::Miss => false,
        },
    }
}

/// The world to render: a camera and an ordered list of objects.
pub struct Scene {
    pub camera: Camera,
    pub objects: Vec<Object>,
}

impl Scene {
    pub open spec fn wf(self) -> bool {
        &&& self.camera.wf()
        &&& forall|i: int| 0 <= i < self.objects@.len() ==> object_wf(#[trigger] self.objects@[i]@)
    }

    pub open spec fn spec_intersect(self, ray: RayM) -> IntersectionM {
        spec_scene_prefix(self.objects@, ray, self.objects@.len() as int)
    }

    /// The fixed demonstration scene: two unit spheres side by side, seen
    /// from a camera a little above and behind the origin, at 16:9.
    pub fn new() -> (r: Option<Scene>)
        ensures
            match r {
                Some(s) => {
                    &&& s.wf()
                    &&& crate::camera::camera_built(
                        s.camera,
                        V3 { x: 0, y: 131072, z: -262144 },
                        V3 { x: 0, y: 0, z: 0 },
                        116508,
                    )
                    &&& s.objects@.len() == 2
                    &&& s.objects@[0]@ == ObjectM::Sphere(
                        SphereM { position: V3 { x: -65536, y: 0, z: 32768 }, radius: 65536 },
                    )
                    &&& s.objects@[1]@ == ObjectM::Sphere(
                        SphereM { position: V3 { x: 131072, y: 0, z: 32768 }, radius: 65536 },
                    )
                },
                None => !crate::camera::camera_ok(
                    V3 { x: 0, y: 131072, z: -262144 },
                    V3 { x: 0, y: 0, z: 0 },
                ),
            },
    {
        let camera = Camera::new(
            Vec3 { x: 0, y: 131072, z: -262144 },
            Vec3 { x: 0, y: 0, z: 0 },
            116508,
        );
        match camera {
            None => None,
            Some(camera) => {
                let mut objects: Vec<Object> = Vec::new();
                objects.push(
                    Object::Sphere(
                        Sphere { position: Vec3 { x: -65536, y: 0, z: 32768 }, radius: 65536 },
                    ),
                );
                objects.push(
                    Object::Sphere(
                        Sphere { position: Vec3 { x: 131072, y: 0, z: 32768 }, radius: 65536 },
                    ),
                );
                Some(Scene { camera, objects })
            },
        }
    }

    /// True nearest-hit aggregation: scan every object and keep the hit with
    /// the smallest parameter; earlier objects win ties.
    pub fn intersect(&self, ray: &Ray) -> (r: Intersection)
        requires
            self.wf(),
            ray_wf(ray@),
        ensures
            r@ == self.spec_intersect(ray@),
            intersection_wf(r@),
            forall|j: int| 0 <= j < self.objects@.len() ==> dominates(
                r@,
                #[trigger] spec_object_intersect(self.objects@[j]@, ray@),
            ),
            r@ is Hit ==> exists|j: int| 0 <= j < self.objects@.len()
                && #[trigger] spec_object_intersect(self.objects@[j]@, ray@) == r@,
    {
        let mut best = Intersection::Miss;
        let mut i: usize = 0;
        while i < self.objects.len()
            invariant
                self.wf(),
                ray_wf(ray@),
                0 <= i <= self.objects@.len(),
                best@ == spec_scene_prefix(self.objects@, ray@, i as int),
                intersection_wf(best@),
                forall|j: int| 0 <= j < i ==> dominates(
                    best@,
                    #[trigger] spec_object_intersect(self.objects@[j]@, ray@),
                ),
                best@ is Hit ==> exists|j: int| 0 <= j < i
                    && #[trigger] spec_object_intersect(self.objects@[j]@, ray@) == best@,
            decreases self.objects@.len() - i,
        {
            let cand = self.objects[i].intersect(ray);
            match cand {
                Intersection::Hit(ch) => {
                    match best {
                        Intersection::Hit(bh) => {
                            if ch.distance < bh.distance {
                                best = Intersection::Hit(ch);
                            }
                        },
                        Intersection::Miss => {
                            best = Intersection::Hit(ch);
                        },
                    }
                },
                Intersection::Miss => {},
            }
            i = i + 1;
        }
        best
    }
}

impl Intersectable for Scene {
    open spec fn intersectable_wf(&self) -> bool {
        self.wf()
    }

    fn intersect(&self, ray: &Ray) -> Intersection {
        Scene::intersect(self, ray)
    }
}

} // verus!
