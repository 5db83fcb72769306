//! Rays: an origin with a direction, evaluated by parameter.

use vstd::prelude::*;

use crate::cvec::{v_add, v_scale, Point, Vec3};
use crate::scalar::{Q, Rat};

verus! {

/// The model of a ray: the component sequences of its origin and direction.
pub struct RayMdl {
    pub orig: Seq<Rat>,
    pub dir: Seq<Rat>,
}

/// A half-line, parametrized as `origin + t * direction`.
#[derive(Clone, Copy, Debug)]
pub struct Ray {
    orig: Point,
    dir: Vec3,
}

impl View for Ray {
    type V = RayMdl;

    closed spec fn view(&self) -> RayMdl {
        RayMdl { orig: self.orig@, dir: self.dir@ }
    }
}

/// The point a ray reaches at parameter `t`.
pub open spec fn ray_at(r: RayMdl, t: Rat) -> Seq<Rat> {
    v_add(r.orig, v_scale(r.dir, t))
}

impl Ray {
    pub fn new(orig: Point, dir: Vec3) -> (r: Ray)
        ensures
            r@.orig == orig@,
            r@.dir == dir@,
    {
        Ray { orig, dir }
    }

    pub fn origin(&self) -> (r: Point)
        ensures
            r@ == self@.orig,
    {
        self.orig
    }

    pub fn direction(&self) -> (r: Vec3)
        ensures
            r@ == self@.dir,
    {
        self.dir
    }

    /// The point reached at parameter `t`.
    pub fn at(&self, t: Q) -> (r: Point)
        ensures
            r@ == ray_at(self@, t@),
    {
        self.orig + t * self.dir
    }
}

} // verus!
