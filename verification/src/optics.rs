//! The arithmetic of space that the pipeline is built on.
//!
//! Points, directions and matrices are real-valued; this crate computes with
//! integers only. So the pipeline is written over an [`Optics`]: a family of
//! types for the values in space, with the operations that the pipeline
//! performs on them. The pipeline decides when each operation is performed
//! and on what; an implementation says what the operation computes.

use crate::geometry::UVec2;
use crate::printing::RgbColor;
use crate::rasterizing::compositing::ScreenVertex;
use vstd::prelude::*;

verus! {

/// The values in space and the operations on them.
///
/// Every operation is a function of its arguments. The comments say what an
/// implementation is expected to compute; the pipeline's contracts speak of
/// the operations themselves and hold for every implementation.
pub trait Optics {
    /// A real number: an angle, a ratio, a distance, a fraction.
    type Scalar: Copy;

    /// A direction or a position of the viewer.
    type Vector: Copy;

    /// A point of a triangle, or a direction from one.
    type Point: Copy;

    /// A transform of space.
    type Matrix: Copy;

    /// A rotation.
    type Rotation: Copy;

    /// The right-handed view matrix of a viewer at `position` who looks along
    /// `look_dir` with `up_dir` upward.
    fn look_to(position: Self::Vector, look_dir: Self::Vector, up_dir: Self::Vector) -> Self::Matrix;

    /// The right-handed perspective projection with the given vertical field
    /// of view, aspect ratio and near plane, and the far plane at infinity.
    fn perspective(fov_y_radians: Self::Scalar, aspect_ratio: Self::Scalar, z_near: Self::Scalar) -> Self::Matrix;

    /// `perspective * view * point`, divided by its fourth component: `x` and
    /// `y` in normalized device coordinates, `z` a depth.
    fn project(perspective: Self::Matrix, view: Self::Matrix, point: Self::Point) -> Self::Vector;

    /// `direction` turned by `rotation`.
    fn rotate(rotation: Self::Rotation, direction: Self::Vector) -> Self::Vector;

    /// `point` moved by the transform `world`.
    fn transform(world: Self::Matrix, point: Self::Point) -> Self::Point;

    /// The unit normal of the triangle with the three corners: the cross
    /// product of `v[2] - v[0]` and `v[1] - v[0]`, normalized.
    fn normal(v: [Self::Point; 3]) -> Self::Point;

    /// Whether a face with this normal is turned away from a viewer who looks
    /// along `look_dir`, or seen edge-on: the dot product of the two is zero
    /// or more.
    fn faces_away(look_dir: Self::Vector, normal: Self::Point) -> bool;

    /// `color` as a face with this normal shows it under a light from
    /// `light_dir`: each channel times `max(normal . light_dir, 0) * (1 -
    /// ambient) + ambient`, kept in the range of a channel.
    fn lit(color: RgbColor, normal: Self::Point, light_dir: Self::Vector, ambient: Self::Scalar) -> RgbColor;

    /// Where a projected point falls on a screen of the given extent: the
    /// pixel at `(x + 1, y + 1) * (width / 2, height / 2)`, with `z` as an
    /// integer depth that is greater the nearer the point is. The depth of a
    /// point is to be above `EMPTY_DEPTH`, the least integer, which marks a
    /// cell that nothing has been drawn to; a corner that comes with that
    /// value is composited at the depth just above it.
    fn to_screen(projected: Self::Vector, dimensions: UVec2) -> ScreenVertex;
}

} // verus!
