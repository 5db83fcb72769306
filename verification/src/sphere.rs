//! The one concrete primitive: a sphere, intersected by closed-form
//! quadratic root solving.

use vstd::prelude::*;

use crate::cvec::{dot, v_div, v_dot, v_len_sq, v_neg, v_sub, Point};
use crate::hittable::{set_face_mdl, HitMdl, HitRecord, Hittable};
use crate::material::{MatMdl, Material};
use crate::ray::{ray_at, Ray, RayMdl};
use crate::scalar::{
    rat_add, rat_div, rat_le, rat_lt, rat_mul, rat_neg, rat_norm, rat_sqrt, rat_sub, rat_zero, Q,
    Rat,
};

verus! {

/// The model of a sphere.
pub struct SphereMdl {
    pub center: Seq<Rat>,
    pub radius: Rat,
    pub mat: MatMdl,
}

/// Immutable geometry: a center, a radius and the surface material.
#[derive(Clone, Copy, Debug)]
pub struct Sphere {
    pub center: Point,
    pub radius: Q,
    pub mat: Material,
}

impl View for Sphere {
    type V = SphereMdl;

    open spec fn view(&self) -> SphereMdl {
        SphereMdl { center: self.center@, radius: self.radius@, mat: self.mat@ }
    }
}

impl Sphere {
    pub fn new(center: Point, radius: Q, mat: Material) -> (r: Sphere)
        ensures
            r@.center == center@,
            r@.radius == radius@,
            r@.mat == mat@,
    {
        Sphere { center, radius, mat }
    }
}

/// Sphere intersection by the quadratic `|O + tD - C|^2 = r^2`: no real
/// root means no hit; otherwise the smaller root is tried first and the
/// larger one only if the smaller lies outside the open interval
/// `(t_min, t_max)` — a root exactly on either bound is rejected.  On
/// acceptance the record carries the point, the parameter, the
/// face-oriented unit normal `(p - center) / radius`, and the material.
pub open spec fn sphere_hit_mdl(s: SphereMdl, r: RayMdl, t_min: Rat, t_max: Rat) -> Option<
    HitMdl,
> {
    let oc = v_sub(r.orig, s.center);
    let a = v_len_sq(r.dir);
    let half_b = v_dot(oc, r.dir);
    let c = rat_norm(rat_sub(v_len_sq(oc), rat_norm(rat_mul(s.radius, s.radius))));
    let discriminant = rat_norm(
        rat_sub(rat_norm(rat_mul(half_b, half_b)), rat_norm(rat_mul(a, c))),
    );
    if rat_lt(discriminant, rat_zero()) {
        None
    } else {
        let sqrtd = rat_sqrt(discriminant);
        let root1 = rat_norm(rat_div(rat_norm(rat_sub(rat_neg(half_b), sqrtd)), a));
        let root2 = rat_norm(rat_div(rat_norm(rat_add(rat_neg(half_b), sqrtd)), a));
        let picked = if rat_le(root1, t_min) || rat_le(t_max, root1) {
            if rat_le(root2, t_min) || rat_le(t_max, root2) {
                None
            } else {
                Some(root2)
            }
        } else {
            Some(root1)
        };
        match picked {
            None => None,
            Some(t) => {
                let p = ray_at(r, t);
                let outward = v_div(v_sub(p, s.center), s.radius);
                Some(
                    set_face_mdl(
                        HitMdl {
                            p,
                            normal: outward,
                            mat: Some(s.mat),
                            t,
                            front_face: false,
                        },
                        r,
                        outward,
                    ),
                )
            },
        }
    }
}

impl Hittable for Sphere {
    open spec fn hit_mdl(&self, r: RayMdl, t_min: Rat, t_max: Rat) -> Option<HitMdl> {
        sphere_hit_mdl(self@, r, t_min, t_max)
    }

    /// Solves the quadratic and accepts the nearest root inside the
    /// interval, filling the record on success.
    fn hit(&self, r: &Ray, t_min: Q, t_max: Q, rec: &mut HitRecord) -> (b: bool)
        ensures
            match self.hit_mdl(r@, t_min@, t_max@) {
                Some(h) => b && final(rec)@ == h,
                None => !b && *final(rec) == *old(rec),
            },
    {
        let oc = r.origin() - self.center;
        let a = r.direction().length_squared();
        let half_b = dot(oc, r.direction());
        let c = oc.length_squared() - self.radius * self.radius;

        let discriminant = half_b * half_b - a * c;
        if discriminant.lt(&Q::zero()) {
            return false;
        }

        let sqrtd = discriminant.sqrt();

        // Find the nearest root that lies strictly inside the open range.
        let mut root = (half_b.negate() - sqrtd) / a;
        if root.le(&t_min) || t_max.le(&root) {
            root = (half_b.negate() + sqrtd) / a;
            if root.le(&t_min) || t_max.le(&root) {
                return false;
            }
        }
        rec.t = root;
        rec.p = r.at(rec.t);
        let outward_normal = (rec.p - self.center) / self.radius;
        rec.set_face_normal(r, &outward_normal);
        rec.mat = Some(self.mat);

        true
    }
}

} // verus!
