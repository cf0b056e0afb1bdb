use raytracer::camera::Camera;
use raytracer::fx::SCALE;
use raytracer::renderer::{shade, Renderer};
use raytracer::scene::{HitInfo, Object, Scene, Sphere};
use raytracer::vec3::Vec3;

const S: i64 = SCALE;

fn origin() -> Vec3 {
    Vec3 { x: 0, y: 0, z: 0 }
}

fn forward_camera() -> Camera {
    Camera::new(origin(), Vec3 { x: 0, y: 0, z: 8 * S }, S).expect("camera")
}

fn sphere_scene() -> Scene {
    Scene {
        camera: forward_camera(),
        objects: vec![Object::Sphere(Sphere {
            position: Vec3 { x: 0, y: 0, z: 3 * S },
            radius: 2 * S,
        })],
    }
}

#[test]
fn shade_full_brightness_directly_under_light() {
    // A point five units straight below the light, lit head on.
    let hit = HitInfo {
        position: Vec3 { x: -5 * S, y: 0, z: -5 * S },
        normal: Vec3 { x: 0, y: S, z: 0 },
        distance: S,
    };
    assert_eq!(shade(&hit), 0x00FF_FFFF);
}

#[test]
fn shade_black_when_facing_away() {
    let hit = HitInfo {
        position: Vec3 { x: -5 * S, y: 0, z: -5 * S },
        normal: Vec3 { x: 0, y: -S, z: 0 },
        distance: S,
    };
    assert_eq!(shade(&hit), 0);
}

#[test]
fn shade_black_when_perpendicular() {
    let hit = HitInfo {
        position: Vec3 { x: -5 * S, y: 0, z: -5 * S },
        normal: Vec3 { x: S, y: 0, z: 0 },
        distance: S,
    };
    assert_eq!(shade(&hit), 0);
}

#[test]
fn shade_packs_equal_channels() {
    // Any lit gray pixel repeats one byte in blue, green and red.
    let hit = HitInfo {
        position: origin(),
        normal: Vec3 { x: 0, y: S, z: 0 },
        distance: S,
    };
    let c = shade(&hit);
    let blue = c & 0xFF;
    assert_eq!(c, blue | (blue << 8) | (blue << 16));
    assert!(blue > 0);
}

#[test]
fn render_sphere_fills_two_by_two_frame() {
    let scene = sphere_scene();
    let mut renderer = Renderer::new();
    let frame = renderer.render(&scene, 2, 2);
    assert_eq!(frame.len(), 4);
    for (i, pixel) in frame.iter().enumerate() {
        assert!(*pixel != 0, "pixel {} is black", i);
    }
}

#[test]
fn render_empty_scene_is_black() {
    let scene = Scene { camera: forward_camera(), objects: vec![] };
    let mut renderer = Renderer::new();
    let frame = renderer.render(&scene, 2, 2);
    assert_eq!(frame, &[0u32, 0, 0, 0]);
}

#[test]
fn render_twice_is_byte_identical() {
    let scene = sphere_scene();
    let mut renderer = Renderer::new();
    let first: Vec<u32> = renderer.render(&scene, 16, 9).to_vec();
    let second: Vec<u32> = renderer.render(&scene, 16, 9).to_vec();
    assert_eq!(first, second);
}

#[test]
fn render_resize_reallocates_cleanly() {
    let scene = sphere_scene();
    let mut renderer = Renderer::new();
    let large = renderer.render(&scene, 8, 8).to_vec();
    assert_eq!(large.len(), 64);
    // Shrinking reallocates to the new size, and the content matches a
    // frame rendered fresh at that size: nothing of the old frame leaks.
    let small = renderer.render(&scene, 2, 2).to_vec();
    assert_eq!(small.len(), 4);
    let mut fresh_renderer = Renderer::new();
    let fresh = fresh_renderer.render(&scene, 2, 2).to_vec();
    assert_eq!(small, fresh);
    // Growing again also yields exactly the frame for the new size.
    let regrown = renderer.render(&scene, 8, 8).to_vec();
    assert_eq!(regrown, large);
}

#[test]
fn render_zero_size_is_empty() {
    let scene = sphere_scene();
    let mut renderer = Renderer::new();
    assert_eq!(renderer.render(&scene, 0, 0), &[] as &[u32]);
    let frame = renderer.render(&scene, 1, 1);
    assert_eq!(frame.len(), 1);
    assert!(frame[0] != 0);
}

#[test]
fn render_default_scene_lights_some_pixels() {
    let scene = Scene::new().expect("scene");
    let mut renderer = Renderer::new();
    let frame = renderer.render(&scene, 64, 36);
    assert!(frame.iter().any(|p| *p != 0));
    assert!(frame.iter().any(|p| *p == 0));
}
