//! What is drawn: triangles in space.

use crate::optics::Optics;
use crate::printing::RgbColor;
use vstd::prelude::*;

verus! {

/// Three corners in space and one colour. The order of the corners decides
/// to which side the triangle faces.
pub struct Triangle<O: Optics> {
    pub v: [O::Point; 3],
    pub color: RgbColor,
}

impl<O: Optics> Clone for Triangle<O> {
    fn clone(&self) -> (copy: Self)
        ensures
            copy == *self,
    {
        Triangle { v: self.v, color: self.color }
    }
}

impl<O: Optics> Copy for Triangle<O> {

}

impl<O: Optics> Triangle<O> {
    /// The unit normal of the triangle, as the optics compute it from the
    /// corners in their order.
    pub fn normal(&self) -> (normal: O::Point)
        ensures
            call_ensures(O::normal, (self.v,), normal),
    {
        O::normal(self.v)
    }
}

} // verus!
