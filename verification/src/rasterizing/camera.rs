//! The camera: the viewer's parameters, and the two matrices derived from
//! them, which are kept once computed and dropped when a parameter changes.

use crate::optics::Optics;
use vstd::prelude::*;

verus! {

/// The mathematical content of a [`Camera`]: its six parameters and the two
/// derived matrices, each `None` while it has to be computed anew.
pub struct CameraView<O: Optics> {
    pub up_dir: O::Vector,
    pub look_dir: O::Vector,
    pub position: O::Vector,
    pub fov_y_radians: O::Scalar,
    pub aspect_ratio: O::Scalar,
    pub z_near: O::Scalar,
    pub view_tensor: Option<O::Matrix>,
    pub perspective_tensor: Option<O::Matrix>,
}

impl<O: Optics> CameraView<O> {
    /// `matrix` is a view matrix of the present position, look direction and
    /// up vector.
    pub open spec fn views(self, matrix: O::Matrix) -> bool {
        call_ensures(O::look_to, (self.position, self.look_dir, self.up_dir), matrix)
    }

    /// `matrix` is a projection matrix of the present field of view, aspect
    /// ratio and near plane.
    pub open spec fn lenses(self, matrix: O::Matrix) -> bool {
        call_ensures(O::perspective, (self.fov_y_radians, self.aspect_ratio, self.z_near), matrix)
    }

    /// A matrix that is kept belongs to the present parameters.
    pub open spec fn wf(self) -> bool {
        &&& self.view_tensor matches Some(matrix) ==> self.views(matrix)
        &&& self.perspective_tensor matches Some(matrix) ==> self.lenses(matrix)
    }

    /// The same six parameters.
    pub open spec fn same_parameters(self, other: Self) -> bool {
        &&& self.up_dir == other.up_dir
        &&& self.look_dir == other.look_dir
        &&& self.position == other.position
        &&& self.fov_y_radians == other.fov_y_radians
        &&& self.aspect_ratio == other.aspect_ratio
        &&& self.z_near == other.z_near
    }

    /// The camera after a projection has been asked of it: the parameters
    /// are the same, a matrix that was kept is still kept, and both matrices
    /// are there.
    pub open spec fn refreshed(self, after: Self) -> bool {
        &&& after.same_parameters(self)
        &&& self.view_tensor is Some ==> after.view_tensor == self.view_tensor
        &&& self.perspective_tensor is Some ==> after.perspective_tensor == self.perspective_tensor
        &&& after.view_tensor is Some
        &&& after.perspective_tensor is Some
    }

    /// `projected` is `point` seen through the two matrices that are kept.
    pub open spec fn projects(self, point: O::Point, projected: O::Vector) -> bool {
        &&& self.view_tensor is Some
        &&& self.perspective_tensor is Some
        &&& call_ensures(O::project, (self.perspective_tensor->0, self.view_tensor->0, point), projected)
    }
}

/// A projection by a well-formed camera is made with a view matrix and a
/// projection matrix of the parameters that the camera has at that moment,
/// whatever it had before.
pub proof fn lemma_projection_is_current<O: Optics>(camera: CameraView<O>, point: O::Point, projected: O::Vector)
    requires
        camera.wf(),
        camera.projects(point, projected),
    ensures
        exists|view: O::Matrix, perspective: O::Matrix|
            {
                &&& call_ensures(O::look_to, (camera.position, camera.look_dir, camera.up_dir), view)
                &&& call_ensures(
                    O::perspective,
                    (camera.fov_y_radians, camera.aspect_ratio, camera.z_near),
                    perspective,
                )
                &&& #[trigger] call_ensures(O::project, (perspective, view, point), projected)
            },
{
    assert(call_ensures(O::project, (camera.perspective_tensor->0, camera.view_tensor->0, point), projected));
}

/// A viewer in space.
pub struct Camera<O: Optics> {
    view_tensor: Option<O::Matrix>,
    perspective_tensor: Option<O::Matrix>,
    up_dir: O::Vector,
    look_dir: O::Vector,
    position: O::Vector,
    fov_y_radians: O::Scalar,
    aspect_ratio: O::Scalar,
    z_near: O::Scalar,
}

impl<O: Optics> View for Camera<O> {
    type V = CameraView<O>;

    closed spec fn view(&self) -> CameraView<O> {
        CameraView {
            up_dir: self.up_dir,
            look_dir: self.look_dir,
            position: self.position,
            fov_y_radians: self.fov_y_radians,
            aspect_ratio: self.aspect_ratio,
            z_near: self.z_near,
            view_tensor: self.view_tensor,
            perspective_tensor: self.perspective_tensor,
        }
    }
}

impl<O: Optics> Clone for Camera<O> {
    fn clone(&self) -> (copy: Self)
        ensures
            copy@ == self@,
    {
        Camera {
            view_tensor: self.view_tensor,
            perspective_tensor: self.perspective_tensor,
            up_dir: self.up_dir,
            look_dir: self.look_dir,
            position: self.position,
            fov_y_radians: self.fov_y_radians,
            aspect_ratio: self.aspect_ratio,
            z_near: self.z_near,
        }
    }
}

impl<O: Optics> Camera<O> {
    /// The camera's invariant: a matrix that is kept belongs to the present
    /// parameters.
    pub open spec fn wf(&self) -> bool {
        self@.wf()
    }

    /// A camera with the given parameters and no matrix computed yet.
    pub fn new(
        up_dir: O::Vector,
        look_dir: O::Vector,
        position: O::Vector,
        fov_y_radians: O::Scalar,
        aspect_ratio: O::Scalar,
        z_near: O::Scalar,
    ) -> (camera: Self)
        ensures
            camera.wf(),
            camera@ == (CameraView::<O> {
                up_dir,
                look_dir,
                position,
                fov_y_radians,
                aspect_ratio,
                z_near,
                view_tensor: None,
                perspective_tensor: None,
            }),
    {
        Camera {
            view_tensor: None,
            perspective_tensor: None,
            up_dir,
            look_dir,
            position,
            fov_y_radians,
            aspect_ratio,
            z_near,
        }
    }

    /// Computes the view matrix from the present parameters and keeps it.
    fn generate_view(&mut self)
        requires
            old(self).wf(),
        ensures
            final(self).wf(),
            final(self)@.view_tensor is Some,
            final(self)@ == (CameraView::<O> { view_tensor: final(self)@.view_tensor, ..old(self)@ }),
    {
        self.view_tensor = Some(O::look_to(self.position, self.look_dir, self.up_dir));
    }

    /// Computes the projection matrix from the present parameters and keeps
    /// it.
    fn generate_perspective(&mut self)
        requires
            old(self).wf(),
        ensures
            final(self).wf(),
            final(self)@.perspective_tensor is Some,
            final(self)@ == (CameraView::<O> { perspective_tensor: final(self)@.perspective_tensor, ..old(self)@ }),
    {
        self.perspective_tensor = Some(O::perspective(self.fov_y_radians, self.aspect_ratio, self.z_near));
    }

    /// Projects a point: `x` and `y` of the result are normalized device
    /// coordinates, `z` is a depth. A matrix that is not kept is computed
    /// from the present parameters first, and kept.
    pub fn project_point(&mut self, rhs: O::Point) -> (projected: O::Vector)
        requires
            old(self).wf(),
        ensures
            final(self).wf(),
            old(self)@.refreshed(final(self)@),
            final(self)@.projects(rhs, projected),
    {
        if self.perspective_tensor.is_none() {
            self.generate_perspective();
        }
        if self.view_tensor.is_none() {
            self.generate_view();
        }
        O::project(self.perspective_tensor.unwrap(), self.view_tensor.unwrap(), rhs)
    }

    /// The up vector.
    pub fn up_dir(&self) -> (up_dir: &O::Vector)
        ensures
            *up_dir == self@.up_dir,
    {
        &self.up_dir
    }

    /// The up vector, to be changed; the view matrix is dropped.
    pub fn up_dir_mut(&mut self) -> (up_dir: &mut O::Vector)
        requires
            old(self).wf(),
        ensures
            *up_dir == old(self)@.up_dir,
            final(self)@ == (CameraView::<O> { up_dir: *final(up_dir), view_tensor: None, ..old(self)@ }),
            final(self).wf(),
    {
        self.view_tensor = None;
        &mut self.up_dir
    }

    /// The look direction.
    pub fn look_dir(&self) -> (look_dir: &O::Vector)
        ensures
            *look_dir == self@.look_dir,
    {
        &self.look_dir
    }

    /// The look direction, to be changed; the view matrix is dropped.
    pub fn look_dir_mut(&mut self) -> (look_dir: &mut O::Vector)
        requires
            old(self).wf(),
        ensures
            *look_dir == old(self)@.look_dir,
            final(self)@ == (CameraView::<O> { look_dir: *final(look_dir), view_tensor: None, ..old(self)@ }),
            final(self).wf(),
    {
        self.view_tensor = None;
        &mut self.look_dir
    }

    /// The position.
    pub fn position(&self) -> (position: &O::Vector)
        ensures
            *position == self@.position,
    {
        &self.position
    }

    /// The position, to be changed; the view matrix is dropped.
    pub fn position_mut(&mut self) -> (position: &mut O::Vector)
        requires
            old(self).wf(),
        ensures
            *position == old(self)@.position,
            final(self)@ == (CameraView::<O> { position: *final(position), view_tensor: None, ..old(self)@ }),
            final(self).wf(),
    {
        self.view_tensor = None;
        &mut self.position
    }

    /// The vertical field of view in radians.
    pub fn fov_y_radians(&self) -> (fov_y_radians: &O::Scalar)
        ensures
            *fov_y_radians == self@.fov_y_radians,
    {
        &self.fov_y_radians
    }

    /// The vertical field of view, to be changed; the projection matrix is
    /// dropped.
    pub fn fov_y_radians_mut(&mut self) -> (fov_y_radians: &mut O::Scalar)
        requires
            old(self).wf(),
        ensures
            *fov_y_radians == old(self)@.fov_y_radians,
            final(self)@ == (CameraView::<O> {
                fov_y_radians: *final(fov_y_radians),
                perspective_tensor: None,
                ..old(self)@
            }),
            final(self).wf(),
    {
        self.perspective_tensor = None;
        &mut self.fov_y_radians
    }

    /// The aspect ratio.
    pub fn aspect_ratio(&self) -> (aspect_ratio: &O::Scalar)
        ensures
            *aspect_ratio == self@.aspect_ratio,
    {
        &self.aspect_ratio
    }

    /// The aspect ratio, to be changed; the projection matrix is dropped.
    pub fn aspect_ratio_mut(&mut self) -> (aspect_ratio: &mut O::Scalar)
        requires
            old(self).wf(),
        ensures
            *aspect_ratio == old(self)@.aspect_ratio,
            final(self)@ == (CameraView::<O> {
                aspect_ratio: *final(aspect_ratio),
                perspective_tensor: None,
                ..old(self)@
            }),
            final(self).wf(),
    {
        self.perspective_tensor = None;
        &mut self.aspect_ratio
    }

    /// The distance of the near plane.
    pub fn z_near(&self) -> (z_near: &O::Scalar)
        ensures
            *z_near == self@.z_near,
    {
        &self.z_near
    }

    /// The distance of the near plane, to be changed; the projection matrix
    /// is dropped.
    pub fn z_near_mut(&mut self) -> (z_near: &mut O::Scalar)
        requires
            old(self).wf(),
        ensures
            *z_near == old(self)@.z_near,
            final(self)@ == (CameraView::<O> { z_near: *final(z_near), perspective_tensor: None, ..old(self)@ }),
            final(self).wf(),
    {
        self.perspective_tensor = None;
        &mut self.z_near
    }

    /// Turns the look direction and the up vector by the same rotation; the
    /// view matrix is dropped once.
    pub fn rotate_self(&mut self, rotate: O::Rotation)
        requires
            old(self).wf(),
        ensures
            final(self).wf(),
            call_ensures(O::rotate, (rotate, old(self)@.look_dir), final(self)@.look_dir),
            call_ensures(O::rotate, (rotate, old(self)@.up_dir), final(self)@.up_dir),
            final(self)@ == (CameraView::<O> {
                look_dir: final(self)@.look_dir,
                up_dir: final(self)@.up_dir,
                view_tensor: None,
                ..old(self)@
            }),
    {
        self.view_tensor = None;
        self.look_dir = O::rotate(rotate, self.look_dir);
        self.up_dir = O::rotate(rotate, self.up_dir);
    }
}

} // verus!
