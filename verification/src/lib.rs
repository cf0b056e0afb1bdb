//! A small verified ray tracer over fixed-point integer coordinates: a
//! pinhole camera casts one ray per pixel into a scene of spheres and planes,
//! the nearest intersection is kept, and a single point light shades it with
//! a Lambertian cosine term packed into a 32-bit color word.

pub mod camera;
pub mod fx;
pub mod renderer;
pub mod scene;
pub mod vec3;
