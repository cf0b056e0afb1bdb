use raytracer::camera::Camera;
use raytracer::fx::{div_trunc, isqrt, SCALE};
use raytracer::scene::{Intersection, Object, Plane, Ray, Scene, Sphere};
use raytracer::vec3::Vec3;

const S: i64 = SCALE;

fn unit_z() -> Vec3 {
    Vec3 { x: 0, y: 0, z: S }
}

fn origin() -> Vec3 {
    Vec3 { x: 0, y: 0, z: 0 }
}

fn norm_sq(v: Vec3) -> i64 {
    v.x * v.x + v.y * v.y + v.z * v.z
}

fn assert_unit(v: Vec3) {
    let n2 = norm_sq(v);
    assert!(S * S - 6 * S <= n2 && n2 <= S * S + 32 * S, "norm_sq {} not unit", n2);
}

#[test]
fn isqrt_brackets() {
    assert_eq!(isqrt(0), 0);
    assert_eq!(isqrt(1), 1);
    assert_eq!(isqrt(10), 3);
    assert_eq!(isqrt(4294967296), 65536);
    assert_eq!(isqrt(4294967295), 65535);
}

#[test]
fn div_trunc_rounds_toward_zero() {
    assert_eq!(div_trunc(7, 2), 3);
    assert_eq!(div_trunc(-7, 2), -3);
    assert_eq!(div_trunc(7, -2), -3);
    assert_eq!(div_trunc(-7, -2), 3);
}

#[test]
fn normalize_three_four_five() {
    let v = Vec3 { x: 3 * S, y: 4 * S, z: 0 };
    let n = v.normalize();
    assert_eq!(n.x, 39321);
    assert_eq!(n.y, 52428);
    assert_eq!(n.z, 0);
    assert_unit(n);
}

#[test]
fn generate_ray_directions_are_unit() {
    let cam = Camera::new(origin(), Vec3 { x: 0, y: 0, z: 8 * S }, S).expect("camera");
    for (px, py) in [(0, 0), (7, 0), (0, 5), (7, 5), (3, 2)] {
        let ray = cam.generate_ray(px, py, 8, 6);
        assert_unit(ray.direction);
        assert_eq!(ray.origin, origin());
    }
}

#[test]
fn center_ray_matches_look_direction() {
    let cam = Camera::new(origin(), Vec3 { x: 0, y: 0, z: 8 * S }, S).expect("camera");
    let ray = cam.generate_ray(50, 50, 100, 100);
    assert_eq!(ray.direction, unit_z());
}

#[test]
fn corner_rays_diverge_outward() {
    let cam = Camera::new(origin(), Vec3 { x: 0, y: 0, z: 8 * S }, S).expect("camera");
    let top_left = cam.generate_ray(0, 0, 100, 100).direction;
    let top_right = cam.generate_ray(99, 0, 100, 100).direction;
    let bottom_left = cam.generate_ray(0, 99, 100, 100).direction;
    let bottom_right = cam.generate_ray(99, 99, 100, 100).direction;
    // The camera looks along +z with +y up; its screen-right axis is -x,
    // so the left pixel column points toward +x.
    assert!(top_left.x > 0 && top_left.y > 0 && top_left.z > 0);
    assert!(top_right.x < 0 && top_right.y > 0 && top_right.z > 0);
    assert!(bottom_left.x > 0 && bottom_left.y < 0 && bottom_left.z > 0);
    assert!(bottom_right.x < 0 && bottom_right.y < 0 && bottom_right.z > 0);
    for corner in [top_left, top_right, bottom_left, bottom_right] {
        assert_unit(corner);
    }
}

#[test]
fn camera_rejects_coincident_eye_and_target() {
    assert!(Camera::new(origin(), origin(), S).is_none());
}

#[test]
fn camera_rejects_looking_straight_up() {
    assert!(Camera::new(origin(), Vec3 { x: 0, y: 2 * S, z: 0 }, S).is_none());
}

#[test]
fn sphere_head_on_hit() {
    let sphere = Sphere { position: Vec3 { x: 0, y: 0, z: 10 * S }, radius: 2 * S };
    let ray = Ray { origin: origin(), direction: unit_z() };
    match sphere.intersect(&ray) {
        Intersection::Hit(hit) => {
            // Distance is eye-to-center minus the radius, exactly.
            assert_eq!(hit.distance, 8 * S);
            assert_eq!(hit.position, Vec3 { x: 0, y: 0, z: 8 * S });
            // The normal points back toward the ray, away from the center.
            assert_eq!(hit.normal, Vec3 { x: 0, y: 0, z: -S });
            assert_unit(hit.normal);
        }
        Intersection::Miss => panic!("expected a hit"),
    }
}

#[test]
fn sphere_missed_when_offset_exceeds_radius() {
    let sphere = Sphere { position: Vec3 { x: 0, y: 5 * S, z: 10 * S }, radius: 2 * S };
    let ray = Ray { origin: origin(), direction: unit_z() };
    assert!(matches!(sphere.intersect(&ray), Intersection::Miss));
}

#[test]
fn sphere_behind_origin_misses() {
    let sphere = Sphere { position: Vec3 { x: 0, y: 0, z: -10 * S }, radius: 2 * S };
    let ray = Ray { origin: origin(), direction: unit_z() };
    assert!(matches!(sphere.intersect(&ray), Intersection::Miss));
}

#[test]
fn sphere_enclosing_origin_misses() {
    // The near root lies behind a ray that starts inside the sphere, and
    // hits only count at nonnegative parameters.
    let sphere = Sphere { position: Vec3 { x: 0, y: 0, z: S / 2 }, radius: 2 * S };
    let ray = Ray { origin: origin(), direction: unit_z() };
    assert!(matches!(sphere.intersect(&ray), Intersection::Miss));
}

#[test]
fn sphere_far_ahead_still_hits() {
    // Distance does not cut visibility off: a sphere 200 units out is hit
    // at exactly eye-to-center minus radius.
    let sphere = Sphere { position: Vec3 { x: 0, y: 0, z: 200 * S }, radius: 2 * S };
    let ray = Ray { origin: origin(), direction: unit_z() };
    match sphere.intersect(&ray) {
        Intersection::Hit(hit) => {
            assert_eq!(hit.distance, 198 * S);
            assert_eq!(hit.normal, Vec3 { x: 0, y: 0, z: -S });
        }
        Intersection::Miss => panic!("expected a hit"),
    }
}

#[test]
fn plane_far_ahead_still_hits() {
    let plane = Plane {
        position: Vec3 { x: 0, y: 0, z: 150 * S },
        normal: Vec3 { x: 0, y: 0, z: -S },
    };
    let ray = Ray { origin: origin(), direction: unit_z() };
    match plane.intersect(&ray) {
        Intersection::Hit(hit) => {
            assert_eq!(hit.distance, 150 * S);
            assert_eq!(hit.position, Vec3 { x: 0, y: 0, z: 150 * S });
            assert_eq!(hit.normal, plane.normal);
        }
        Intersection::Miss => panic!("expected a hit"),
    }
}

#[test]
fn plane_perpendicular_hit() {
    let plane = Plane {
        position: Vec3 { x: 0, y: 0, z: 10 * S },
        normal: Vec3 { x: 0, y: 0, z: -S },
    };
    let ray = Ray { origin: origin(), direction: unit_z() };
    match plane.intersect(&ray) {
        Intersection::Hit(hit) => {
            assert_eq!(hit.normal, plane.normal);
            assert_eq!(hit.distance, 10 * S);
            assert_eq!(hit.position, Vec3 { x: 0, y: 0, z: 10 * S });
        }
        Intersection::Miss => panic!("expected a hit"),
    }
}

#[test]
fn plane_parallel_ray_misses() {
    let plane = Plane {
        position: Vec3 { x: 0, y: 5 * S, z: 0 },
        normal: Vec3 { x: 0, y: S, z: 0 },
    };
    let ray = Ray { origin: origin(), direction: unit_z() };
    assert!(matches!(plane.intersect(&ray), Intersection::Miss));
}

#[test]
fn scene_hit_on_second_sphere_only() {
    let scene = Scene::new().expect("scene");
    // Aim straight along +z from in front of the second sphere at (2, 0, 0.5).
    let ray = Ray {
        origin: Vec3 { x: 2 * S, y: 0, z: -10 * S },
        direction: unit_z(),
    };
    match scene.intersect(&ray) {
        Intersection::Hit(hit) => {
            // 10.5 units to the center, minus the unit radius.
            assert_eq!(hit.distance, 19 * S / 2);
            assert_eq!(hit.normal, Vec3 { x: 0, y: 0, z: -S });
            assert_eq!(hit.position, Vec3 { x: 2 * S, y: 0, z: -S / 2 });
        }
        Intersection::Miss => panic!("expected a hit on the second sphere"),
    }
}

#[test]
fn scene_keeps_nearest_hit_regardless_of_order() {
    let camera = Camera::new(origin(), Vec3 { x: 0, y: 0, z: 8 * S }, S).expect("camera");
    let far = Object::Sphere(Sphere { position: Vec3 { x: 0, y: 0, z: 20 * S }, radius: S });
    let near = Object::Sphere(Sphere { position: Vec3 { x: 0, y: 0, z: 10 * S }, radius: S });
    let scene = Scene { camera, objects: vec![far, near] };
    let ray = Ray { origin: origin(), direction: unit_z() };
    match scene.intersect(&ray) {
        Intersection::Hit(hit) => assert_eq!(hit.distance, 9 * S),
        Intersection::Miss => panic!("expected a hit"),
    }
}

#[test]
fn scene_empty_misses() {
    let camera = Camera::new(origin(), Vec3 { x: 0, y: 0, z: 8 * S }, S).expect("camera");
    let scene = Scene { camera, objects: vec![] };
    let ray = Ray { origin: origin(), direction: unit_z() };
    assert!(matches!(scene.intersect(&ray), Intersection::Miss));
}

#[test]
fn default_scene_contents() {
    let scene = Scene::new().expect("scene");
    assert_eq!(scene.camera.position, Vec3 { x: 0, y: 2 * S, z: -4 * S });
    assert_eq!(scene.objects.len(), 2);
    match scene.objects[0] {
        Object::Sphere(s) => {
            assert_eq!(s.position, Vec3 { x: -S, y: 0, z: S / 2 });
            assert_eq!(s.radius, S);
        }
        _ => panic!("expected a sphere"),
    }
    match scene.objects[1] {
        Object::Sphere(s) => {
            assert_eq!(s.position, Vec3 { x: 2 * S, y: 0, z: S / 2 });
            assert_eq!(s.radius, S);
        }
        _ => panic!("expected a sphere"),
    }
}
