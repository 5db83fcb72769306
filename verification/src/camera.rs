//! The camera: a precomputed view basis turning image-plane coordinates
//! into rays.
//!
//! Deriving the basis from a field of view and orientation takes
//! trigonometry, which has no exact rational form; a driver computes the
//! four basis vectors outside and hands them in, and the ray generation
//! itself is exact and verified.

use vstd::prelude::*;

use crate::cvec::{v_add, v_scale, v_sub, Point, Vec3};
use crate::ray::{Ray, RayMdl};
use crate::scalar::{Q, Rat};

verus! {

/// The model of a camera: the component sequences of its basis vectors.
pub struct CameraMdl {
    pub origin: Seq<Rat>,
    pub lower_left_corner: Seq<Rat>,
    pub horizontal: Seq<Rat>,
    pub vertical: Seq<Rat>,
}

/// A view basis: rays go from `origin` toward points of the image plane
/// spanned by `horizontal` and `vertical` from `lower_left_corner`.
pub struct Camera {
    origin: Point,
    lower_left_corner: Point,
    horizontal: Vec3,
    vertical: Vec3,
}

impl View for Camera {
    type V = CameraMdl;

    closed spec fn view(&self) -> CameraMdl {
        CameraMdl {
            origin: self.origin@,
            lower_left_corner: self.lower_left_corner@,
            horizontal: self.horizontal@,
            vertical: self.vertical@,
        }
    }
}

/// The direction of the ray through image-plane coordinates `(u, v)`.
pub open spec fn cam_ray_dir(c: CameraMdl, u: Rat, v: Rat) -> Seq<Rat> {
    v_sub(
        v_add(v_add(c.lower_left_corner, v_scale(c.horizontal, u)), v_scale(c.vertical, v)),
        c.origin,
    )
}

impl Camera {
    /// A camera from its precomputed basis vectors.
    pub fn new(origin: Point, lower_left_corner: Point, horizontal: Vec3, vertical: Vec3) -> (r:
        Camera)
        ensures
            r@.origin == origin@,
            r@.lower_left_corner == lower_left_corner@,
            r@.horizontal == horizontal@,
            r@.vertical == vertical@,
    {
        Camera { origin, lower_left_corner, horizontal, vertical }
    }

    /// The ray through image-plane coordinates `(u, v)`, both in `[0, 1]`.
    pub fn get_ray(&self, u: Q, v: Q) -> (r: Ray)
        ensures
            r@.orig == self@.origin,
            r@.dir == cam_ray_dir(self@, u@, v@),
    {
        Ray::new(
            self.origin,
            self.lower_left_corner + u * self.horizontal + v * self.vertical - self.origin,
        )
    }
}

} // verus!
