//! The intersection protocol: hit records, the `Hittable` contract, and the
//! scene aggregate that keeps the nearest hit.

use vstd::prelude::*;

use crate::cvec::{dot, v_dot, v_neg, v_zero, Point, Vec3};
use crate::material::{MatMdl, Material};
use crate::ray::{Ray, RayMdl};
use crate::scalar::{rat_lt, rat_zero, Q, Rat};
use crate::sphere::{sphere_hit_mdl, Sphere, SphereMdl};

verus! {

/// The model of a hit record.
pub struct HitMdl {
    pub p: Seq<Rat>,
    pub normal: Seq<Rat>,
    pub mat: Option<MatMdl>,
    pub t: Rat,
    pub front_face: bool,
}

/// The result of a successful intersection test: the point, the unit normal
/// oriented against the incoming ray, the material of the surface, the ray
/// parameter, and whether the geometric outward normal already opposed the
/// ray.
#[derive(Clone, Copy, Debug)]
pub struct HitRecord {
    pub p: Point,
    pub normal: Vec3,
    pub mat: Option<Material>,
    pub t: Q,
    pub front_face: bool,
}

impl View for HitRecord {
    type V = HitMdl;

    open spec fn view(&self) -> HitMdl {
        HitMdl {
            p: self.p@,
            normal: self.normal@,
            mat: match self.mat {
                Some(m) => Some(m@),
                None => None,
            },
            t: self.t@,
            front_face: self.front_face,
        }
    }
}

/// The model of a freshly made record: everything zero, no material.
pub open spec fn hit_default() -> HitMdl {
    HitMdl { p: v_zero(3), normal: v_zero(3), mat: None, t: rat_zero(), front_face: false }
}

impl Default for HitRecord {
    fn default() -> (r: HitRecord)
        ensures
            r@ == hit_default(),
    {
        let r = HitRecord {
            p: Point::default(),
            normal: Vec3::default(),
            mat: None,
            t: Q::zero(),
            front_face: false,
        };
        proof {
            assert(r.p@ =~= v_zero(3));
            assert(r.normal@ =~= v_zero(3));
        }
        r
    }
}

/// The face-orientation rule: `front_face` records whether the outward
/// normal opposes the incoming ray, and the stored normal is flipped so it
/// always does.
pub open spec fn set_face_mdl(h: HitMdl, r: RayMdl, outward: Seq<Rat>) -> HitMdl {
    let ff = rat_lt(v_dot(r.dir, outward), rat_zero());
    HitMdl { normal: if ff { outward } else { v_neg(outward) }, front_face: ff, ..h }
}

impl HitRecord {
    /// Derives `front_face` and the stored normal together from the
    /// geometric outward normal, so the normal always opposes the ray.
    pub fn set_face_normal(&mut self, r: &Ray, outward_normal: &Vec3)
        ensures
            final(self)@ == set_face_mdl(old(self)@, r@, outward_normal@),
    {
        self.front_face = dot(r.direction(), *outward_normal).lt(&Q::zero());
        self.normal = if self.front_face {
            *outward_normal
        } else {
            outward_normal.negate()
        };
    }
}

/// What every geometric primitive implements: the closest intersection of a
/// ray with parameter inside `(t_min, t_max)`, written into `rec` when one
/// exists, with the record untouched otherwise.
pub trait Hittable {
    /// The intersection each implementation computes, as a model value.
    spec fn hit_mdl(&self, r: RayMdl, t_min: Rat, t_max: Rat) -> Option<HitMdl>;

    fn hit(&self, r: &Ray, t_min: Q, t_max: Q, rec: &mut HitRecord) -> (b: bool)
        ensures
            match self.hit_mdl(r@, t_min@, t_max@) {
                Some(h) => b && final(rec)@ == h,
                None => !b && *final(rec) == *old(rec),
            },
    ;
}

/// The nearest hit among the first `n` members, scanned in insertion order
/// with a shrinking upper bound; the acceptance interval is open, so a
/// later member wins only by being strictly closer, and on exactly equal
/// parameters the first-inserted member keeps the record.
pub open spec fn list_hit_mdl(
    objs: Seq<SphereMdl>,
    r: RayMdl,
    t_min: Rat,
    t_max: Rat,
    n: int,
) -> Option<HitMdl>
    decreases n,
{
    if n <= 0 {
        None
    } else {
        let pre = list_hit_mdl(objs, r, t_min, t_max, n - 1);
        let closest = match pre {
            Some(h) => h.t,
            None => t_max,
        };
        match sphere_hit_mdl(objs[n - 1], r, t_min, closest) {
            Some(h2) => Some(h2),
            None => pre,
        }
    }
}

/// An insertion-ordered collection of primitives, hit-tested as a whole.
#[derive(Debug)]
pub struct HittableList {
    objects: Vec<Sphere>,
}

impl View for HittableList {
    type V = Seq<SphereMdl>;

    closed spec fn view(&self) -> Seq<SphereMdl> {
        self.objects@.map_values(|s: Sphere| s@)
    }
}

impl HittableList {
    pub fn new() -> (r: HittableList)
        ensures
            r@ == Seq::<SphereMdl>::empty(),
    {
        let r = HittableList { objects: Vec::new() };
        proof {
            assert(r@ =~= Seq::<SphereMdl>::empty());
        }
        r
    }

    /// An empty list with room reserved for `cap` members.
    pub fn with_capacity(cap: usize) -> (r: HittableList)
        ensures
            r@ == Seq::<SphereMdl>::empty(),
    {
        let r = HittableList { objects: Vec::with_capacity(cap) };
        proof {
            assert(r@ =~= Seq::<SphereMdl>::empty());
        }
        r
    }

    /// The members, in insertion order.
    pub fn objects(&self) -> (r: &[Sphere])
        ensures
            r@.len() == self@.len(),
            forall|i: int| 0 <= i < self@.len() ==> r@[i]@ == self@[i],
    {
        self.objects.as_slice()
    }

    /// Removes every member.
    pub fn clear(&mut self)
        ensures
            final(self)@ == Seq::<SphereMdl>::empty(),
    {
        self.objects.clear();
        proof {
            assert(self@ =~= Seq::<SphereMdl>::empty());
        }
    }

    /// Appends a member.
    pub fn add(&mut self, object: Sphere)
        ensures
            final(self)@ == old(self)@.push(object@),
    {
        self.objects.push(object);
        proof {
            assert(self@ =~= old(self)@.push(object@));
        }
    }
}

impl Hittable for HittableList {
    open spec fn hit_mdl(&self, r: RayMdl, t_min: Rat, t_max: Rat) -> Option<HitMdl> {
        list_hit_mdl(self@, r, t_min, t_max, self@.len() as int)
    }

    /// Scans the members in order, keeping the nearest hit so far as the
    /// shrinking upper bound of the acceptance interval.
    fn hit(&self, r: &Ray, t_min: Q, t_max: Q, rec: &mut HitRecord) -> (b: bool)
        ensures
            match self.hit_mdl(r@, t_min@, t_max@) {
                Some(h) => b && final(rec)@ == h,
                None => !b && *final(rec) == *old(rec),
            },
    {
        let mut temp_rec = HitRecord::default();
        let mut hit_anything = false;
        let mut closest_so_far = t_max;
        let n = self.objects.len();
        let mut i: usize = 0;
        while i < n
            invariant
                i <= n,
                n == self@.len(),
                match list_hit_mdl(self@, r@, t_min@, t_max@, i as int) {
                    Some(h) => hit_anything && rec@ == h && closest_so_far@ == h.t
                        && temp_rec@ == h,
                    None => !hit_anything && *rec == *old(rec) && closest_so_far == t_max,
                },
            decreases n - i,
        {
            let obj = &self.objects[i];
            proof {
                assert(obj@ == self@[i as int]);
            }
            if obj.hit(r, t_min, closest_so_far, &mut temp_rec) {
                hit_anything = true;
                closest_so_far = temp_rec.t;
                *rec = temp_rec;
            }
            i += 1;
        }
        hit_anything
    }
}

} // verus!
