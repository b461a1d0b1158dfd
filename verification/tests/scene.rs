use glam::{Mat4, Quat, Vec3, Vec3A};
use text_3d_graphics::geometry::{ivec2, uvec2, UVec2};
use text_3d_graphics::optics::Optics;
use text_3d_graphics::printing::{CharBuffer, RgbColor};
use text_3d_graphics::rasterizing::camera::Camera;
use text_3d_graphics::rasterizing::compositing::{ScreenVertex, EMPTY_DEPTH};
use text_3d_graphics::rasterizing::Rasterizer;
use text_3d_graphics::resources::Triangle;

/// Optics in single precision, computed by `glam`.
struct Glam;

const DEPTH_STEPS: f32 = 16_777_216.0;

impl Optics for Glam {
    type Scalar = f32;
    type Vector = Vec3;
    type Point = Vec3A;
    type Matrix = Mat4;
    type Rotation = Quat;

    fn look_to(position: Vec3, look_dir: Vec3, up_dir: Vec3) -> Mat4 {
        glam::camera::rh::view::look_to_mat4(position, look_dir, up_dir)
    }

    fn perspective(fov_y_radians: f32, aspect_ratio: f32, z_near: f32) -> Mat4 {
        glam::camera::rh::proj::directx::perspective_infinite(fov_y_radians, aspect_ratio, z_near)
    }

    fn project(perspective: Mat4, view: Mat4, point: Vec3A) -> Vec3 {
        perspective.project_point3(view.transform_point3a(point).into())
    }

    fn rotate(rotation: Quat, direction: Vec3) -> Vec3 {
        rotation * direction
    }

    fn transform(world: Mat4, point: Vec3A) -> Vec3A {
        world.transform_point3a(point)
    }

    fn normal(v: [Vec3A; 3]) -> Vec3A {
        (v[2] - v[0]).cross(v[1] - v[0]).normalize()
    }

    fn faces_away(look_dir: Vec3, normal: Vec3A) -> bool {
        look_dir.dot(normal.into()) >= 0.0
    }

    fn lit(color: RgbColor, normal: Vec3A, light_dir: Vec3, ambient: f32) -> RgbColor {
        let intensity = f32::max(normal.dot(light_dir.into()), 0.0) * (1.0 - ambient) + ambient;
        RgbColor(
            (color.0 as f32 * intensity) as u8,
            (color.1 as f32 * intensity) as u8,
            (color.2 as f32 * intensity) as u8,
        )
    }

    fn to_screen(projected: Vec3, dimensions: UVec2) -> ScreenVertex {
        let x = (projected.x + 1.0) * (dimensions.x >> 1) as f32;
        let y = (projected.y + 1.0) * (dimensions.y >> 1) as f32;
        // The projection maps the near plane to 0 and infinity to 1.
        let depth = ((1.0 - projected.z) * DEPTH_STEPS) as i32;
        ScreenVertex { position: ivec2(x as i32, y as i32), depth }
    }
}

const BLACK: RgbColor = RgbColor(0, 0, 0);

fn camera() -> Camera<Glam> {
    Camera::new(Vec3::Y, Vec3::Z, Vec3::ZERO, 90.0f32.to_radians(), 1.0, 1.0)
}

fn rasterizer() -> Rasterizer<Glam> {
    // Light from behind the viewer; no ambient light.
    Rasterizer::new(camera(), Mat4::IDENTITY, Vec3::NEG_Z, 0.0)
}

fn frame() -> CharBuffer {
    CharBuffer::new(uvec2(50, 50), ' ', BLACK).unwrap()
}

/// A triangle across the view at distance `z` whose normal points at the
/// viewer.
fn facing(z: f32, color: RgbColor) -> Triangle<Glam> {
    Triangle { v: [Vec3A::new(-1.0, -1.0, z), Vec3A::new(1.0, -1.0, z), Vec3A::new(1.0, 1.0, z)], color }
}

/// The same corners in the other order: the normal points away.
fn averted(z: f32, color: RgbColor) -> Triangle<Glam> {
    Triangle { v: [Vec3A::new(1.0, -1.0, z), Vec3A::new(-1.0, -1.0, z), Vec3A::new(1.0, 1.0, z)], color }
}

fn filled(buffer: &CharBuffer) -> usize {
    let mut count = 0;
    for y in 0..50 {
        for x in 0..50 {
            if buffer.get_char(uvec2(x, y)).unwrap().0 == '.' {
                count += 1;
            }
        }
    }
    count
}

fn close(a: Vec3, b: Vec3) -> bool {
    (a - b).abs().max_element() < 1e-5
}

#[test]
fn normal_follows_the_order_of_the_corners() {
    assert!(close(facing(2.0, BLACK).normal().into(), Vec3::NEG_Z));
    assert!(close(averted(2.0, BLACK).normal().into(), Vec3::Z));
}

#[test]
fn projection_of_a_point_in_front_of_the_camera() {
    let mut camera = camera();
    let projected = camera.project_point(Vec3A::new(-1.0, -1.0, 2.0));
    // The right-handed view looks along its negative z: x is mirrored.
    assert!(close(projected, Vec3::new(0.5, -0.5, 0.5)));
    let centre = camera.project_point(Vec3A::new(0.0, 0.0, 4.0));
    assert!(close(centre, Vec3::new(0.0, 0.0, 0.75)));
}

#[test]
fn moving_the_camera_changes_the_projection() {
    let mut camera = camera();
    let point = Vec3A::new(-1.0, -1.0, 2.0);
    let before = camera.project_point(point);
    *camera.position_mut() = Vec3::new(0.0, 0.0, -2.0);
    let after = camera.project_point(point);
    assert!(close(before, Vec3::new(0.5, -0.5, 0.5)));
    assert!(close(after, Vec3::new(0.25, -0.25, 0.75)));
}

#[test]
fn changing_the_field_of_view_changes_the_projection_across_the_view_only() {
    let mut camera = camera();
    let point = Vec3A::new(-1.0, -1.0, 2.0);
    let before = camera.project_point(point);
    *camera.fov_y_radians_mut() = 2.0 * 0.5f32.atan();
    let after = camera.project_point(point);
    assert!(close(before, Vec3::new(0.5, -0.5, 0.5)));
    // Twice the focal length: twice as far from the centre, at the same depth.
    assert!(close(after, Vec3::new(1.0, -1.0, 0.5)));
}

#[test]
fn rotating_the_camera_changes_the_projection() {
    let mut camera = camera();
    let point = Vec3A::new(0.0, 0.0, 2.0);
    assert!(close(camera.project_point(point), Vec3::new(0.0, 0.0, 0.5)));
    camera.rotate_self(Quat::from_rotation_y(std::f32::consts::FRAC_PI_4));
    assert!(close(*camera.up_dir(), Vec3::Y));
    let turned = camera.project_point(point);
    assert!((turned.x.abs() - 1.0).abs() < 1e-4);
    assert!(turned.y.abs() < 1e-5);
}

#[test]
fn the_world_transform_comes_before_the_camera() {
    let mut rasterizer = rasterizer();
    rasterizer.world_tensor = Mat4::from_translation(Vec3::new(0.0, 0.0, 2.0));
    let projected = rasterizer.project_point(Vec3A::new(-1.0, -1.0, 0.0));
    assert!(close(projected, Vec3::new(0.5, -0.5, 0.5)));
}

#[test]
fn a_triangle_that_faces_the_camera_is_drawn() {
    let mut rasterizer = rasterizer();
    let mut frame = frame();
    assert_eq!(rasterizer.rasterize_triangle(facing(2.0, RgbColor(200, 100, 50)), &mut frame), Ok(()));
    // Corners at pixels (37, 12), (12, 12) and (12, 37); fully lit.
    assert_eq!(frame.get_char(uvec2(15, 13)), Some(('.', RgbColor(200, 100, 50))));
    assert_eq!(frame.get_char(uvec2(36, 12)), Some(('.', RgbColor(200, 100, 50))));
    assert_eq!(frame.get_char(uvec2(12, 37)), Some(('.', RgbColor(200, 100, 50))));
    assert_eq!(frame.get_char(uvec2(36, 36)), Some((' ', BLACK)));
    assert_eq!(frame.get_char(uvec2(5, 5)), Some((' ', BLACK)));
    assert_eq!(filled(&frame), 26 * 27 / 2);
    let depths = rasterizer.depth_buffer.as_ref().unwrap();
    assert_eq!(depths.get_value(uvec2(15, 13)), Some(8_388_608));
    assert_eq!(depths.get_value(uvec2(5, 5)), Some(EMPTY_DEPTH));
}

#[test]
fn a_triangle_that_faces_away_is_dropped() {
    let mut rasterizer = rasterizer();
    let mut frame = frame();
    assert_eq!(rasterizer.rasterize_triangle(averted(2.0, RgbColor(200, 100, 50)), &mut frame), Ok(()));
    assert_eq!(filled(&frame), 0);
    let depths = rasterizer.depth_buffer.as_ref().unwrap();
    assert_eq!(depths.dimensions(), uvec2(50, 50));
    for y in 0..50 {
        for x in 0..50 {
            assert_eq!(frame.get_char(uvec2(x, y)), Some((' ', BLACK)));
            assert_eq!(depths.get_value(uvec2(x, y)), Some(EMPTY_DEPTH));
        }
    }
    // It is dropped over what has been drawn, too, though it is nearer.
    assert_eq!(rasterizer.rasterize_triangle(facing(4.0, RgbColor(9, 9, 9)), &mut frame), Ok(()));
    let drawn = filled(&frame);
    assert!(drawn > 0);
    assert_eq!(rasterizer.rasterize_triangle(averted(2.0, RgbColor(200, 100, 50)), &mut frame), Ok(()));
    assert_eq!(filled(&frame), drawn);
    assert_eq!(frame.get_char(uvec2(20, 20)), Some(('.', RgbColor(9, 9, 9))));
}

#[test]
fn a_triangle_seen_edge_on_is_dropped() {
    let mut rasterizer = rasterizer();
    let mut frame = frame();
    let edge_on = Triangle {
        v: [Vec3A::new(0.0, -1.0, 2.0), Vec3A::new(0.0, 1.0, 2.0), Vec3A::new(0.0, 0.0, 3.0)],
        color: RgbColor(1, 2, 3),
    };
    assert_eq!(rasterizer.rasterize_triangle(edge_on, &mut frame), Ok(()));
    assert_eq!(filled(&frame), 0);
}

#[test]
fn the_nearer_triangle_shows_whichever_is_drawn_first() {
    let near = facing(2.0, RgbColor(255, 0, 0));
    let far = facing(4.0, RgbColor(0, 0, 255));
    let mut first = rasterizer();
    let mut one = frame();
    first.clear_frame();
    assert_eq!(first.rasterize_triangle(near, &mut one), Ok(()));
    assert_eq!(first.rasterize_triangle(far, &mut one), Ok(()));
    let mut second = rasterizer();
    let mut two = frame();
    second.clear_frame();
    assert_eq!(second.rasterize_triangle(far, &mut two), Ok(()));
    assert_eq!(two.get_char(uvec2(20, 20)), Some(('.', RgbColor(0, 0, 255))));
    assert_eq!(second.rasterize_triangle(near, &mut two), Ok(()));
    for y in 0..50 {
        for x in 0..50 {
            assert_eq!(one.get_char(uvec2(x, y)), two.get_char(uvec2(x, y)));
        }
    }
    // The far triangle has its corners at (31, 18), (18, 18) and (18, 31).
    assert_eq!(one.get_char(uvec2(20, 20)), Some(('.', RgbColor(255, 0, 0))));
    assert_eq!(one.get_char(uvec2(18, 31)), Some(('.', RgbColor(255, 0, 0))));
    assert_eq!(one.get_char(uvec2(12, 12)), Some(('.', RgbColor(255, 0, 0))));
    assert_eq!(first.depth_buffer.as_ref().unwrap().get_value(uvec2(20, 20)), Some(8_388_608));
}

#[test]
fn light_and_ambient_fraction_set_the_colour() {
    let color = RgbColor(200, 100, 50);
    let mut dark = Rasterizer::<Glam>::new(camera(), Mat4::IDENTITY, Vec3::Z, 0.0);
    let mut frame_dark = frame();
    assert_eq!(dark.rasterize_triangle(facing(2.0, color), &mut frame_dark), Ok(()));
    assert_eq!(frame_dark.get_char(uvec2(15, 13)), Some(('.', RgbColor(0, 0, 0))));
    let mut dim = Rasterizer::<Glam>::new(camera(), Mat4::IDENTITY, Vec3::Z, 0.5);
    let mut frame_dim = frame();
    assert_eq!(dim.rasterize_triangle(facing(2.0, color), &mut frame_dim), Ok(()));
    assert_eq!(frame_dim.get_char(uvec2(15, 13)), Some(('.', RgbColor(100, 50, 25))));
    let mut half = Rasterizer::<Glam>::new(camera(), Mat4::IDENTITY, Vec3::new(0.0, 0.0, -0.5), 0.5);
    let mut frame_half = frame();
    assert_eq!(half.rasterize_triangle(facing(2.0, color), &mut frame_half), Ok(()));
    assert_eq!(frame_half.get_char(uvec2(15, 13)), Some(('.', RgbColor(150, 75, 37))));
}

#[test]
fn clear_frame_empties_the_depths_between_frames() {
    let mut rasterizer = rasterizer();
    let mut frame = frame();
    assert_eq!(rasterizer.rasterize_triangle(facing(2.0, RgbColor(255, 0, 0)), &mut frame), Ok(()));
    assert_eq!(rasterizer.rasterize_triangle(facing(4.0, RgbColor(0, 0, 255)), &mut frame), Ok(()));
    assert_eq!(frame.get_char(uvec2(20, 20)), Some(('.', RgbColor(255, 0, 0))));
    rasterizer.clear_frame();
    assert_eq!(rasterizer.depth_buffer.as_ref().unwrap().get_value(uvec2(20, 20)), Some(EMPTY_DEPTH));
    assert_eq!(rasterizer.rasterize_triangle(facing(4.0, RgbColor(0, 0, 255)), &mut frame), Ok(()));
    assert_eq!(frame.get_char(uvec2(20, 20)), Some(('.', RgbColor(0, 0, 255))));
}
