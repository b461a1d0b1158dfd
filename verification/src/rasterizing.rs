//! From triangles in space to cells of a frame.
//!
//! A [`Rasterizer`] looks at a scene through its [`Camera`]: it projects each
//! triangle, drops it if it faces away, lights it, and composites it into the
//! frame by depth.

pub mod camera;
pub mod compositing;

use crate::geometry::UVec2;
use crate::optics::Optics;
use crate::printing::{CharBuffer, CharBufferView, FILLED};
use crate::rasterizing::camera::{Camera, CameraView};
use crate::rasterizing::compositing::{
    clear_depths, composite_triangle, composited_frame, covers, depths_for, lemma_triangle_shows_on_cleared_frame,
    ready_depths, DepthBuffer, DepthBufferView, ScreenTriangle, ScreenVertex, EMPTY_DEPTH,
};
use crate::resources::Triangle;
use vstd::prelude::*;

verus! {

/// Why a triangle could not be drawn.
#[derive(Clone, Copy, Debug, PartialEq, Eq, Structural)]
pub enum RasterizationError {
    /// An extent of the target does not fit the platform's index type.
    U32ToUsize,
    /// An internal invariant of the pipeline did not hold.
    Misc,
}

/// `projected` is `point` as the camera sees it after the world transform.
pub open spec fn seen_as<O: Optics>(
    camera: CameraView<O>,
    world: O::Matrix,
    point: O::Point,
    projected: O::Vector,
) -> bool {
    exists|moved: O::Point| #[trigger] call_ensures(O::transform, (world, point), moved) && camera.projects(moved, projected)
}

/// `vertex` is where `point` falls on a screen of the given extent.
pub open spec fn lands_on<O: Optics>(
    camera: CameraView<O>,
    world: O::Matrix,
    point: O::Point,
    dimensions: UVec2,
    vertex: ScreenVertex,
) -> bool {
    exists|projected: O::Vector| #[trigger]
        seen_as(camera, world, point, projected) && call_ensures(O::to_screen, (projected, dimensions), vertex)
}

/// Draws triangles in space into a frame of cells.
pub struct Rasterizer<O: Optics> {
    /// The viewer.
    pub camera: Camera<O>,
    /// The transform applied to every point before the camera sees it.
    pub world_tensor: O::Matrix,
    /// The direction that the light comes from.
    pub light_dir: O::Vector,
    /// The fraction of its colour that a face shows without any light, from
    /// zero to one.
    pub universal_lighting: O::Scalar,
    /// The depths of the frame being drawn; absent until the first triangle.
    pub depth_buffer: Option<DepthBuffer>,
}

impl<O: Optics> Rasterizer<O> {
    /// The rasterizer's invariant: its camera and, where it has one, its
    /// depth buffer are well formed.
    pub open spec fn wf(&self) -> bool {
        &&& self.camera.wf()
        &&& self.depth_buffer matches Some(depths) ==> depths.wf()
    }

    /// The triangle lit and projected: `screen` has the colour that `normal`
    /// gives the triangle under the rasterizer's light, and its corners are
    /// where the triangle's corners fall on a screen of the given extent.
    pub open spec fn projects_to(
        &self,
        triangle: Triangle<O>,
        normal: O::Point,
        dimensions: UVec2,
        screen: ScreenTriangle,
    ) -> bool {
        &&& call_ensures(O::lit, (triangle.color, normal, self.light_dir, self.universal_lighting), screen.color)
        &&& lands_on(self.camera@, self.world_tensor, triangle.v[0], dimensions, screen.v[0])
        &&& lands_on(self.camera@, self.world_tensor, triangle.v[1], dimensions, screen.v[1])
        &&& lands_on(self.camera@, self.world_tensor, triangle.v[2], dimensions, screen.v[2])
    }

    /// What drawing `triangle` makes of a frame and of the depths below it:
    /// nothing changes where the triangle faces away from the camera;
    /// otherwise the triangle, lit and projected, is composited by depth.
    pub open spec fn draws(
        &self,
        triangle: Triangle<O>,
        frame: CharBufferView,
        depths: DepthBufferView,
        frame_after: CharBufferView,
        depths_after: DepthBufferView,
    ) -> bool {
        exists|normal: O::Point, away: bool|
            {
                &&& call_ensures(O::normal, (triangle.v,), normal)
                &&& #[trigger] call_ensures(O::faces_away, (self.camera@.look_dir, normal), away)
                &&& if away {
                    frame_after == frame && depths_after == depths
                } else {
                    exists|screen: ScreenTriangle|
                        {
                            &&& #[trigger] self.projects_to(triangle, normal, frame.dimensions, screen)
                            &&& frame_after == composited_frame(frame, depths, screen)
                            &&& depths_after == depths.composited(screen)
                        }
                }
            }
    }

    /// A rasterizer that has not drawn yet.
    pub fn new(camera: Camera<O>, world_tensor: O::Matrix, light_dir: O::Vector, universal_lighting: O::Scalar) -> (rasterizer:
        Self)
        requires
            camera.wf(),
        ensures
            rasterizer.wf(),
            rasterizer.camera == camera,
            rasterizer.world_tensor == world_tensor,
            rasterizer.light_dir == light_dir,
            rasterizer.universal_lighting == universal_lighting,
            rasterizer.depth_buffer is None,
    {
        Rasterizer { camera, world_tensor, light_dir, universal_lighting, depth_buffer: None }
    }

    /// Forgets what has been drawn: every stored depth becomes empty. To be
    /// called before the first triangle of each frame.
    pub fn clear_frame(&mut self)
        requires
            old(self).wf(),
        ensures
            final(self).wf(),
            final(self).camera == old(self).camera,
            final(self).world_tensor == old(self).world_tensor,
            final(self).light_dir == old(self).light_dir,
            final(self).universal_lighting == old(self).universal_lighting,
            match old(self).depth_buffer {
                Some(before) => final(self).depth_buffer matches Some(depths) && depths@ == DepthBufferView::cleared(
                    before@.dimensions,
                ),
                None => final(self).depth_buffer is None,
            },
    {
        clear_depths(&mut self.depth_buffer);
    }

    /// Projects a point of the scene: the world transform first, then the
    /// camera.
    pub fn project_point(&mut self, rhs: O::Point) -> (projected: O::Vector)
        requires
            old(self).wf(),
        ensures
            final(self).wf(),
            old(self).camera@.refreshed(final(self).camera@),
            final(self).world_tensor == old(self).world_tensor,
            final(self).light_dir == old(self).light_dir,
            final(self).universal_lighting == old(self).universal_lighting,
            final(self).depth_buffer == old(self).depth_buffer,
            seen_as(final(self).camera@, old(self).world_tensor, rhs, projected),
    {
        let moved = O::transform(self.world_tensor, rhs);
        let projected = self.camera.project_point(moved);
        assert(call_ensures(O::transform, (self.world_tensor, rhs), moved));
        projected
    }

    /// Draws a triangle of the scene into `char_buffer`.
    ///
    /// The depth buffer is made, or made anew, where there is none of the
    /// frame's extent. The corners are projected. A triangle that faces away
    /// from the camera, or is seen edge-on, is dropped: no cell and no depth
    /// changes. Any other is lit and composited: every cell that it covers
    /// and at which it is nearer than what was drawn before is filled in its
    /// lit colour.
    pub fn rasterize_triangle(&mut self, triangle: Triangle<O>, char_buffer: &mut CharBuffer) -> (result: Result<
        (),
        RasterizationError,
    >)
        requires
            old(self).wf(),
            old(char_buffer).wf(),
        ensures
            final(self).wf(),
            final(char_buffer).wf(),
            final(self).world_tensor == old(self).world_tensor,
            final(self).light_dir == old(self).light_dir,
            final(self).universal_lighting == old(self).universal_lighting,
            match result {
                Ok(()) => {
                    &&& CharBuffer::fits_index(old(char_buffer)@.dimensions)
                    &&& old(self).camera@.refreshed(final(self).camera@)
                    &&& final(self).depth_buffer is Some
                    &&& final(self).draws(
                        triangle,
                        old(char_buffer)@,
                        depths_for(old(self).depth_buffer, old(char_buffer)@.dimensions),
                        final(char_buffer)@,
                        final(self).depth_buffer->0@,
                    )
                },
                Err(e) => {
                    &&& !CharBuffer::fits_index(old(char_buffer)@.dimensions)
                    &&& e == RasterizationError::U32ToUsize
                    &&& final(char_buffer)@ == old(char_buffer)@
                    &&& final(self).camera == old(self).camera
                    &&& final(self).depth_buffer == old(self).depth_buffer
                },
            },
    {
        let dimensions: UVec2 = *char_buffer.dimensions();
        let depths: DepthBuffer = match ready_depths(&mut self.depth_buffer, dimensions) {
            Ok(depths) => depths,
            Err(e) => {
                return Err(e);
            },
        };
        let ghost start = depths@;
        self.depth_buffer = Some(depths);
        let p0 = self.project_point(triangle.v[0]);
        let p1 = self.project_point(triangle.v[1]);
        let p2 = self.project_point(triangle.v[2]);
        let normal = triangle.normal();
        let away: bool = O::faces_away(*self.camera.look_dir(), normal);
        if away {
            assert(self.draws(triangle, old(char_buffer)@, start, char_buffer@, self.depth_buffer->0@));
            return Ok(());
        }
        let color = O::lit(triangle.color, normal, self.light_dir, self.universal_lighting);
        let s0 = O::to_screen(p0, dimensions);
        let s1 = O::to_screen(p1, dimensions);
        let s2 = O::to_screen(p2, dimensions);
        let screen = ScreenTriangle { v: [s0, s1, s2], color };
        proof {
            assert(seen_as(self.camera@, self.world_tensor, triangle.v[0], p0));
            assert(seen_as(self.camera@, self.world_tensor, triangle.v[1], p1));
            assert(seen_as(self.camera@, self.world_tensor, triangle.v[2], p2));
            assert(lands_on(self.camera@, self.world_tensor, triangle.v[0], dimensions, screen.v[0]));
            assert(lands_on(self.camera@, self.world_tensor, triangle.v[1], dimensions, screen.v[1]));
            assert(lands_on(self.camera@, self.world_tensor, triangle.v[2], dimensions, screen.v[2]));
            assert(self.projects_to(triangle, normal, dimensions, screen));
        }
        let composited = composite_triangle(&mut self.depth_buffer, screen, char_buffer);
        proof {
            assert(composited is Ok);
            assert(self.projects_to(triangle, normal, dimensions, screen));
            assert(self.draws(triangle, old(char_buffer)@, start, char_buffer@, self.depth_buffer->0@));
        }
        composited
    }
}

/// A triangle that the optics find turned away from the camera is dropped:
/// drawing it changes no cell and no depth.
pub proof fn lemma_averted_triangle_changes_nothing<O: Optics>(
    rasterizer: Rasterizer<O>,
    triangle: Triangle<O>,
    frame: CharBufferView,
    depths: DepthBufferView,
    frame_after: CharBufferView,
    depths_after: DepthBufferView,
)
    requires
        rasterizer.draws(triangle, frame, depths, frame_after, depths_after),
        forall|normal: O::Point, away: bool|
            call_ensures(O::normal, (triangle.v,), normal) && #[trigger] call_ensures(
                O::faces_away,
                (rasterizer.camera@.look_dir, normal),
                away,
            ) ==> away,
    ensures
        frame_after == frame,
        depths_after == depths,
{
}

/// A triangle that the optics find turned toward the camera is composited:
/// what drawing it makes of the frame and the depths is what compositing a
/// projection of it, in its lit colour, makes of them.
pub proof fn lemma_facing_triangle_is_composited<O: Optics>(
    rasterizer: Rasterizer<O>,
    triangle: Triangle<O>,
    frame: CharBufferView,
    depths: DepthBufferView,
    frame_after: CharBufferView,
    depths_after: DepthBufferView,
)
    requires
        rasterizer.draws(triangle, frame, depths, frame_after, depths_after),
        forall|normal: O::Point, away: bool|
            call_ensures(O::normal, (triangle.v,), normal) && #[trigger] call_ensures(
                O::faces_away,
                (rasterizer.camera@.look_dir, normal),
                away,
            ) ==> !away,
    ensures
        exists|normal: O::Point, screen: ScreenTriangle|
            {
                &&& call_ensures(O::normal, (triangle.v,), normal)
                &&& #[trigger] rasterizer.projects_to(triangle, normal, frame.dimensions, screen)
                &&& frame_after == composited_frame(frame, depths, screen)
                &&& depths_after == depths.composited(screen)
            },
{
    let (normal, away) = choose|normal: O::Point, away: bool|
        {
            &&& call_ensures(O::normal, (triangle.v,), normal)
            &&& #[trigger] call_ensures(O::faces_away, (rasterizer.camera@.look_dir, normal), away)
            &&& if away {
                frame_after == frame && depths_after == depths
            } else {
                exists|screen: ScreenTriangle|
                    {
                        &&& #[trigger] rasterizer.projects_to(triangle, normal, frame.dimensions, screen)
                        &&& frame_after == composited_frame(frame, depths, screen)
                        &&& depths_after == depths.composited(screen)
                    }
            }
        };
    let screen = choose|screen: ScreenTriangle|
        {
            &&& #[trigger] rasterizer.projects_to(triangle, normal, frame.dimensions, screen)
            &&& frame_after == composited_frame(frame, depths, screen)
            &&& depths_after == depths.composited(screen)
        };
    assert(rasterizer.projects_to(triangle, normal, frame.dimensions, screen));
}

/// `frame_after` and `depths_after` show `screen` drawn on cleared depths:
/// every cell that the triangle covers is filled in its colour and has a
/// depth above the mark of an empty cell, and every other cell is as it was
/// and still empty.
pub open spec fn shows_on_cleared_frame(
    screen: ScreenTriangle,
    frame: CharBufferView,
    frame_after: CharBufferView,
    depths_after: DepthBufferView,
) -> bool {
    forall|x: int, y: int|
        frame.contains(x, y) ==> if covers(screen, x, y) {
            #[trigger] frame_after.cells[y][x] == (FILLED, screen.color) && depths_after.depths[y][x] > EMPTY_DEPTH
        } else {
            frame_after.cells[y][x] == frame.cells[y][x] && depths_after.depths[y][x] == EMPTY_DEPTH
        }
}

/// A triangle that the optics find turned toward the camera, drawn first
/// after the frame was cleared, shows in its lit colour in every cell that
/// its projection covers, and in no other.
pub proof fn lemma_facing_triangle_shows_on_cleared_frame<O: Optics>(
    rasterizer: Rasterizer<O>,
    triangle: Triangle<O>,
    frame: CharBufferView,
    frame_after: CharBufferView,
    depths_after: DepthBufferView,
)
    requires
        frame.wf(),
        rasterizer.draws(triangle, frame, DepthBufferView::cleared(frame.dimensions), frame_after, depths_after),
        forall|normal: O::Point, away: bool|
            call_ensures(O::normal, (triangle.v,), normal) && #[trigger] call_ensures(
                O::faces_away,
                (rasterizer.camera@.look_dir, normal),
                away,
            ) ==> !away,
    ensures
        exists|normal: O::Point, screen: ScreenTriangle|
            {
                &&& call_ensures(O::normal, (triangle.v,), normal)
                &&& #[trigger] rasterizer.projects_to(triangle, normal, frame.dimensions, screen)
                &&& shows_on_cleared_frame(screen, frame, frame_after, depths_after)
            },
{
    let depths = DepthBufferView::cleared(frame.dimensions);
    lemma_facing_triangle_is_composited(rasterizer, triangle, frame, depths, frame_after, depths_after);
    let (normal, screen) = choose|normal: O::Point, screen: ScreenTriangle|
        {
            &&& call_ensures(O::normal, (triangle.v,), normal)
            &&& #[trigger] rasterizer.projects_to(triangle, normal, frame.dimensions, screen)
            &&& frame_after == composited_frame(frame, depths, screen)
            &&& depths_after == depths.composited(screen)
        };
    assert forall|x: int, y: int| frame.contains(x, y) implies if covers(screen, x, y) {
        #[trigger] frame_after.cells[y][x] == (FILLED, screen.color) && depths_after.depths[y][x] > EMPTY_DEPTH
    } else {
        frame_after.cells[y][x] == frame.cells[y][x] && depths_after.depths[y][x] == EMPTY_DEPTH
    } by {
        lemma_triangle_shows_on_cleared_frame(frame, screen, x, y);
    }
    assert(rasterizer.projects_to(triangle, normal, frame.dimensions, screen));
}

} // verus!
