//! End-to-end rendering scenarios.

use rust_rt::fixed::FP_ONE;
use rust_rt::vec3::Vec3;
use rust_rt::rendering::framebuffer::Framebuffer;
use rust_rt::rendering::materials::EmissiveMaterial;
use rust_rt::rendering::materials::LambertianMaterial;
use rust_rt::rendering::materials::Material;
use rust_rt::rendering::ray_camera::RayCamera;
use rust_rt::rendering::renderer::Renderer;
use rust_rt::scene::models::Scene;
use rust_rt::scene::models::SceneObject;
use rust_rt::scene::quad::Quad;
use rust_rt::scene::sphere::Sphere;
use rust_rt::scene::mesh::Mesh;
use rust_rt::scene::triangle::Triangle;
use rust_rt::math::transform::Matrix;
use rust_rt::math::transform::Transform;
use rust_rt::rng::Rng64;

fn v(x: i64, y: i64, z: i64) -> Vec3 {
    Vec3 { x, y, z }
}

fn lamb(r: i64, g: i64, b: i64) -> Material {
    Material::Lambertian(LambertianMaterial::new(v(r, g, b)))
}

fn emit(r: i64, g: i64, b: i64) -> Material {
    Material::Emissive(EmissiveMaterial::new(v(r, g, b)))
}

/// Empty scene, one sample: every pixel holds sky radiance. The blue channel
/// is exactly 1.0 everywhere; the top of the image is bluer (smaller red)
/// than the bottom, which is close to white.
#[test]
fn empty_scene_sky_gradient() {
    let scene = Scene::new();
    let mut cam = RayCamera::new(v(0, 0, 0));
    let mut fb = Framebuffer::new(64, 36);
    let mut renderer = Renderer::new();
    let mut rng = Rng64::from_seed(1);
    renderer.render_sample(&scene, 64, 36, &mut fb, &mut cam, &mut rng);
    assert_eq!(renderer.num_samples, 1);
    // The camera frame's local up points down the buffer, so row 0 looks up
    // (the display's top row) and the last row looks down.
    let upward = fb.get_pixel(32, 0);
    let downward = fb.get_pixel(32, 35);
    assert_eq!(upward.z, FP_ONE);
    assert_eq!(downward.z, FP_ONE);
    assert!(upward.x < downward.x, "up {:?} down {:?}", upward, downward);
    assert!(upward.y < downward.y);
    // Looking down, the sky's white end: nearly full red.
    assert!(downward.x > 3 * FP_ONE / 4);
    // Looking up, a visible blue tint.
    assert!(upward.x < 3 * FP_ONE / 4);
}

/// A red Lambertian sphere ahead of the camera: after many samples the
/// center pixel's red channel dominates green and blue by a wide margin.
#[test]
fn single_red_sphere_dominant_red() {
    let mut scene = Scene::new();
    scene.add_object(SceneObject::Sphere(Sphere::new(
        v(0, 0, 5 * FP_ONE),
        FP_ONE,
        lamb(3686, 410, 410),
    )));
    let mut cam = RayCamera::new(v(0, 0, 0));
    let (w, h) = (32usize, 18usize);
    let mut fb = Framebuffer::new(w, h);
    let mut renderer = Renderer::new();
    let mut rng = Rng64::from_seed(2);
    for _ in 0..64 {
        renderer.render_sample(&scene, w, h, &mut fb, &mut cam, &mut rng);
    }
    assert_eq!(renderer.num_samples, 64);
    let center = fb.get_pixel(w / 2, h / 2);
    assert!(center.x > 0);
    assert!(
        center.x >= 3 * center.y && center.x >= 3 * center.z,
        "center {:?}",
        center
    );
}

/// A Cornell-like box: white walls, red left wall, green right wall, an
/// emissive ceiling panel. A pixel looking straight at the panel saturates;
/// light reaches the camera, and the left half of the image is redder than
/// blue while the right half is greener than blue.
#[test]
fn cornell_box_tints() {
    let s = FP_ONE;
    let white = lamb(2867, 2867, 2867);
    let red = lamb(2662, 205, 205);
    let green = lamb(492, 2662, 205);
    // An open-fronted box [-2, 2]^2 x [2, 6] seen from the origin (+z).
    let mut scene = Scene::new();
    // Floor at y = -2.
    scene.add_object(SceneObject::Quad(Quad::new(
        v(-2 * s, -2 * s, 2 * s),
        v(4 * s, 0, 0),
        v(0, 0, 4 * s),
        white,
    )));
    // Ceiling at y = 2.
    scene.add_object(SceneObject::Quad(Quad::new(
        v(-2 * s, 2 * s, 2 * s),
        v(4 * s, 0, 0),
        v(0, 0, 4 * s),
        white,
    )));
    // Back wall at z = 6.
    scene.add_object(SceneObject::Quad(Quad::new(
        v(-2 * s, -2 * s, 6 * s),
        v(4 * s, 0, 0),
        v(0, 4 * s, 0),
        white,
    )));
    // Left wall (x = -2): red. Right wall (x = 2): green.
    scene.add_object(SceneObject::Quad(Quad::new(
        v(-2 * s, -2 * s, 2 * s),
        v(0, 4 * s, 0),
        v(0, 0, 4 * s),
        red,
    )));
    scene.add_object(SceneObject::Quad(Quad::new(
        v(2 * s, -2 * s, 2 * s),
        v(0, 4 * s, 0),
        v(0, 0, 4 * s),
        green,
    )));
    // Emissive panel just below the ceiling.
    scene.add_object(SceneObject::Quad(Quad::new(
        v(-s, 2 * s - 16, 3 * s),
        v(2 * s, 0, 0),
        v(0, 0, 2 * s),
        emit(163840, 143360, 90112),
    )));
    // Two small spheres inside.
    scene.add_object(SceneObject::Sphere(Sphere::new(
        v(-s, -s - 2048, 4 * s),
        s / 2,
        white,
    )));
    scene.add_object(SceneObject::Sphere(Sphere::new(
        v(s, -s - 2048, 5 * s),
        s / 2,
        white,
    )));

    let (w, h) = (24usize, 16usize);
    let mut cam = RayCamera::new(v(0, 0, 0));
    let mut fb = Framebuffer::new(w, h);
    let mut renderer = Renderer::new();
    let mut rng = Rng64::from_seed(3);
    let samples = 64u32;
    for _ in 0..samples {
        renderer.render_sample(&scene, w, h, &mut fb, &mut cam, &mut rng);
    }
    // Every cell is lit: this box has an emissive panel and an open front to
    // the sky, so means are positive.
    let bytes = fb.to_bytes_s(samples);
    assert_eq!(bytes.len(), 4 * w * h);
    // Left columns redder than blue; right columns greener than blue.
    let mut left_r: i64 = 0;
    let mut left_b: i64 = 0;
    let mut right_g: i64 = 0;
    let mut right_b: i64 = 0;
    for y in 0..h {
        for x in 0..3 {
            let c = fb.get_pixel(x, y);
            left_r += c.x;
            left_b += c.z;
        }
        for x in w - 3..w {
            let c = fb.get_pixel(x, y);
            right_g += c.y;
            right_b += c.z;
        }
    }
    assert!(left_r * 10 >= left_b * 12, "left {} vs {}", left_r, left_b);
    assert!(right_g * 10 >= right_b * 12, "right {} vs {}", right_g, right_b);
}

/// Staring straight at an emissive panel saturates the tone-mapped pixel.
#[test]
fn emissive_panel_saturates() {
    let s = FP_ONE;
    let mut scene = Scene::new();
    scene.add_object(SceneObject::Quad(Quad::new(
        v(-2 * s, -2 * s, 3 * s),
        v(4 * s, 0, 0),
        v(0, 4 * s, 0),
        emit(163840, 143360, 90112),
    )));
    let (w, h) = (8usize, 8usize);
    let mut cam = RayCamera::new(v(0, 0, 0));
    let mut fb = Framebuffer::new(w, h);
    let mut renderer = Renderer::new();
    let mut rng = Rng64::from_seed(4);
    renderer.render_sample(&scene, w, h, &mut fb, &mut cam, &mut rng);
    let bytes = fb.to_bytes_s(1);
    let p = 4 * (w / 2 + (h / 2) * w);
    assert_eq!(bytes[p], 255);
    assert_eq!(bytes[p + 1], 255);
    assert_eq!(bytes[p + 2], 255);
    assert_eq!(bytes[p + 3], 255);
}

/// Without a reset, radiance accumulated at one pose persists after the pose
/// changes; a paired clear-and-reset removes it.
#[test]
fn reset_invalidates_pose() {
    let s = FP_ONE;
    let mut scene = Scene::new();
    // A bright panel ahead (+z); behind the camera there is only sky.
    scene.add_object(SceneObject::Quad(Quad::new(
        v(-2 * s, -2 * s, 3 * s),
        v(4 * s, 0, 0),
        v(0, 4 * s, 0),
        emit(163840, 143360, 90112),
    )));
    let (w, h) = (8usize, 8usize);
    let mut cam = RayCamera::new(v(0, 0, 0));
    let mut fb = Framebuffer::new(w, h);
    let mut renderer = Renderer::new();
    let mut rng = Rng64::from_seed(5);
    renderer.render_sample(&scene, w, h, &mut fb, &mut cam, &mut rng);
    renderer.render_sample(&scene, w, h, &mut fb, &mut cam, &mut rng);
    // Rotate the camera away from the panel.
    cam.direction = v(0, 0, -FP_ONE);
    cam.yaw = -90 * FP_ONE;
    // Without a reset the old pose's radiance is still blended in.
    renderer.render_sample(&scene, w, h, &mut fb, &mut cam, &mut rng);
    let ghosted = fb.get_pixel(w / 2, h / 2);
    assert_eq!(renderer.num_samples, 3);
    assert!(ghosted.x >= 2 * 163840, "ghost remains: {:?}", ghosted);
    // With the paired reset the first sample at the new pose is sky only.
    fb.clear();
    renderer.reset();
    renderer.render_sample(&scene, w, h, &mut fb, &mut cam, &mut rng);
    let fresh = fb.get_pixel(w / 2, h / 2);
    assert_eq!(renderer.num_samples, 1);
    assert!(fresh.x <= FP_ONE, "no ghost expected: {:?}", fresh);
    assert!(ghosted.x > 10 * fresh.x);
}

/// A closed box of perfectly black Lambertian walls: every interior path is
/// absorbed, and the accumulator stays exactly zero.
#[test]
fn absorbed_paths_black_box() {
    let s = FP_ONE;
    let black = lamb(0, 0, 0);
    let mut scene = Scene::new();
    let half = 2 * s;
    // Six faces of [-2, 2]^3.
    scene.add_object(SceneObject::Quad(Quad::new(
        v(-half, -half, -half),
        v(2 * half, 0, 0),
        v(0, 0, 2 * half),
        black,
    )));
    scene.add_object(SceneObject::Quad(Quad::new(
        v(-half, half, -half),
        v(2 * half, 0, 0),
        v(0, 0, 2 * half),
        black,
    )));
    scene.add_object(SceneObject::Quad(Quad::new(
        v(-half, -half, -half),
        v(2 * half, 0, 0),
        v(0, 2 * half, 0),
        black,
    )));
    scene.add_object(SceneObject::Quad(Quad::new(
        v(-half, -half, half),
        v(2 * half, 0, 0),
        v(0, 2 * half, 0),
        black,
    )));
    scene.add_object(SceneObject::Quad(Quad::new(
        v(-half, -half, -half),
        v(0, 2 * half, 0),
        v(0, 0, 2 * half),
        black,
    )));
    scene.add_object(SceneObject::Quad(Quad::new(
        v(half, -half, -half),
        v(0, 2 * half, 0),
        v(0, 0, 2 * half),
        black,
    )));
    let (w, h) = (16usize, 12usize);
    let mut cam = RayCamera::new(v(0, 0, 0));
    let mut fb = Framebuffer::new(w, h);
    let mut renderer = Renderer::new();
    let mut rng = Rng64::from_seed(6);
    for _ in 0..4 {
        renderer.render_sample(&scene, w, h, &mut fb, &mut cam, &mut rng);
    }
    for y in 0..h {
        for x in 0..w {
            let c = fb.get_pixel(x, y);
            assert_eq!(c, v(0, 0, 0), "pixel ({}, {}) not black", x, y);
        }
    }
}

/// With the environment light switched off, a miss contributes nothing: an
/// empty scene renders exactly black.
#[test]
fn environment_light_off_is_black() {
    let mut scene = Scene::new();
    scene.environment_light = false;
    let (w, h) = (8usize, 8usize);
    let mut cam = RayCamera::new(v(0, 0, 0));
    let mut fb = Framebuffer::new(w, h);
    let mut renderer = Renderer::new();
    let mut rng = Rng64::from_seed(11);
    renderer.render_sample(&scene, w, h, &mut fb, &mut cam, &mut rng);
    for y in 0..h {
        for x in 0..w {
            assert_eq!(fb.get_pixel(x, y), v(0, 0, 0));
        }
    }
}

/// Accumulation is monotone: for a fixed pose, each pass only grows each
/// cell.
#[test]
fn accumulation_monotone() {
    let mut scene = Scene::new();
    scene.add_object(SceneObject::Sphere(Sphere::new(
        v(0, 0, 4 * FP_ONE),
        FP_ONE,
        lamb(2048, 2048, 2048),
    )));
    let (w, h) = (12usize, 8usize);
    let mut cam = RayCamera::new(v(0, 0, 0));
    let mut fb = Framebuffer::new(w, h);
    let mut renderer = Renderer::new();
    let mut rng = Rng64::from_seed(8);
    let mut prev: Vec<Vec3> = vec![v(0, 0, 0); w * h];
    for _ in 0..6 {
        renderer.render_sample(&scene, w, h, &mut fb, &mut cam, &mut rng);
        for y in 0..h {
            for x in 0..w {
                let c = fb.get_pixel(x, y);
                let p = prev[x + y * w];
                assert!(c.x >= p.x && c.y >= p.y && c.z >= p.z);
                prev[x + y * w] = c;
            }
        }
    }
}

/// The normals debug pass writes the hit normal (or zero) straight into the
/// buffer, without accumulating.
#[test]
fn normals_pass_writes_normals() {
    let mut scene = Scene::new();
    scene.add_object(SceneObject::Sphere(Sphere::new(
        v(0, 0, 4 * FP_ONE),
        FP_ONE,
        lamb(2048, 2048, 2048),
    )));
    let (w, h) = (16usize, 16usize);
    let mut cam = RayCamera::new(v(0, 0, 0));
    let mut fb = Framebuffer::new(w, h);
    let mut renderer = Renderer::new();
    let mut rng = Rng64::from_seed(21);
    renderer.render_normals(&scene, w, h, &mut fb, &mut cam, &mut rng);
    assert_eq!(renderer.num_samples, 0);
    let center = fb.get_pixel(w / 2, h / 2);
    // The sphere's front face points back at the camera.
    assert!(center.z < -3 * FP_ONE / 4, "center normal {:?}", center);
    // A corner pixel misses the sphere entirely.
    assert_eq!(fb.get_pixel(0, 0), v(0, 0, 0));
    // Running it twice does not accumulate.
    let before = fb.get_pixel(w / 2, h / 2);
    renderer.render_normals(&scene, w, h, &mut fb, &mut cam, &mut rng);
    let after = fb.get_pixel(w / 2, h / 2);
    assert!((after.z - before.z).abs() < FP_ONE / 2);
}

/// The heat debug pass runs over a mesh-backed scene and reports a bounded
/// gray value per pixel.
#[test]
fn bvh_heat_pass_runs() {
    let mut tris = Vec::new();
    for k in 0..16i64 {
        let x = (k % 4) * FP_ONE - 2 * FP_ONE;
        let y = (k / 4) * FP_ONE - 2 * FP_ONE;
        tris.push(Triangle::from_verts(
            v(x, y, 0),
            v(x, y + FP_ONE, 0),
            v(x + FP_ONE, y, 0),
        ));
    }
    let m = Matrix::translation(v(0, 0, 4 * FP_ONE));
    let minv = Matrix::translation(v(0, 0, -4 * FP_ONE));
    let mesh = Mesh::new(tris, Transform::new(m, minv), lamb(2048, 2048, 2048));
    let mut scene = Scene::new();
    scene.add_object(SceneObject::Mesh(mesh));
    let (w, h) = (8usize, 8usize);
    let mut cam = RayCamera::new(v(0, 0, 0));
    let mut fb = Framebuffer::new(w, h);
    let mut renderer = Renderer::new();
    let mut rng = Rng64::from_seed(22);
    renderer.render_bvh_hits(&scene, w, h, &mut fb, &mut cam, &mut rng);
    assert_eq!(renderer.num_samples, 0);
    let center = fb.get_pixel(w / 2, h / 2);
    assert!(center.x >= 0 && center.x == center.y && center.y == center.z);
}

/// `render_full` accumulates, divides by the pass count and resets: the
/// buffer ends holding mean radiance and the counter ends at zero.
#[test]
fn render_full_leaves_mean() {
    let scene = Scene::new();
    let (w, h) = (8usize, 8usize);
    let mut cam = RayCamera::new(v(0, 0, 0));
    let mut fb = Framebuffer::new(w, h);
    let mut renderer = Renderer::new();
    let mut rng = Rng64::from_seed(23);
    renderer.render_full(&scene, w, h, &mut fb, 5, &mut cam, &mut rng);
    assert_eq!(renderer.num_samples, 0);
    // Sky only: each mean channel is at most 1.0 and blue is exactly 1.0.
    for y in 0..h {
        for x in 0..w {
            let c = fb.get_pixel(x, y);
            assert!(0 < c.x && c.x <= FP_ONE);
            assert_eq!(c.z, FP_ONE);
        }
    }
}

/// A polished (zero-roughness) white metal wall ahead of the camera acts as
/// a mirror: every center-pixel path bounces once and ends in the sky behind
/// the camera, so the blue channel stays exactly 1.0 and the red channel
/// carries the sky tint of a near-horizontal direction.
#[test]
fn polished_metal_mirrors_sky() {
    let s = FP_ONE;
    let mut scene = Scene::new();
    scene.add_object(SceneObject::Quad(Quad::new(
        v(-4 * s, -4 * s, 3 * s),
        v(8 * s, 0, 0),
        v(0, 8 * s, 0),
        Material::Metal(rust_rt::rendering::materials::MetalMaterial::new(
            v(FP_ONE, FP_ONE, FP_ONE),
            0,
        )),
    )));
    let (w, h) = (8usize, 8usize);
    let mut cam = RayCamera::new(v(0, 0, 0));
    let mut fb = Framebuffer::new(w, h);
    let mut renderer = Renderer::new();
    let mut rng = Rng64::from_seed(31);
    renderer.render_sample(&scene, w, h, &mut fb, &mut cam, &mut rng);
    let c = fb.get_pixel(w / 2, h / 2);
    assert_eq!(c.z, FP_ONE, "mirrored sky keeps full blue: {:?}", c);
    assert!(c.x > 2700 && c.x < 3600, "near-horizon sky red: {:?}", c);
    assert!(c.x < c.y && c.y < c.z);
}

/// Rendering is reproducible: the same seed gives the same image, bit for
/// bit; a different seed gives a different one.
#[test]
fn same_seed_same_image() {
    let mut scene = Scene::new();
    scene.add_object(SceneObject::Sphere(Sphere::new(
        v(0, 0, 4 * FP_ONE),
        FP_ONE,
        lamb(2048, 1024, 512),
    )));
    let (w, h) = (16usize, 9usize);
    let mut images: Vec<Vec<u8>> = Vec::new();
    for seed in [42u64, 42u64, 43u64] {
        let mut cam = RayCamera::new(v(0, 0, 0));
        let mut fb = Framebuffer::new(w, h);
        let mut renderer = Renderer::new();
        let mut rng = Rng64::from_seed(seed);
        for _ in 0..4 {
            renderer.render_sample(&scene, w, h, &mut fb, &mut cam, &mut rng);
        }
        images.push(fb.to_bytes_s(4));
    }
    assert_eq!(images[0], images[1]);
    assert_ne!(images[0], images[2]);
}

/// The gamma-2 byte export: exact expected bytes for exact cells.
#[test]
fn tone_map_bytes() {
    let mut fb = Framebuffer::new(2, 1);
    fb.set_pixel(0, 0, v(FP_ONE, 1024, 0));
    fb.set_pixel(1, 0, v(4 * FP_ONE, -5, 16384 * FP_ONE));
    let bytes = fb.to_bytes_s(1);
    // sqrt(1.0) * 255 = 255; sqrt(0.25) * 255 = 127 (floor); 0 stays 0.
    assert_eq!(&bytes[0..4], &[255, 127, 0, 255]);
    // Above 1.0 saturates at 255; a negative cell exports as 0.
    assert_eq!(&bytes[4..8], &[255, 0, 255, 255]);
    // Dividing by the sample count first: 4.0 over 4 samples is 1.0.
    let bytes4 = fb.to_bytes_s(4);
    assert_eq!(bytes4[4], 255);
    assert_eq!(bytes4[0], 127);
}
