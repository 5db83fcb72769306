//! Fixed-arity vectors over the rational scalar [`Q`]: the algebra that the
//! whole renderer is built on.
//!
//! A `CVec<N>` is an ordered tuple of `N` scalars, used interchangeably as a
//! point, a direction and a color.  Every operation's contract pins the
//! result down componentwise via the specification-level functions over
//! `Seq<Rat>`.

use vstd::prelude::*;

use crate::rng::{rng_next, rng_range, Prng};
use crate::scalar::{
    rat_abs, rat_add, rat_div, rat_eq, rat_le, rat_lt, rat_min, rat_mul, rat_neg, rat_norm,
    rat_one, rat_sqrt, rat_sub, rat_wf, rat_zero, Q, Rat,
};

verus! {

broadcast use vstd::array::group_array_axioms;

/// An ordered tuple of `N` rational scalars.
#[derive(Clone, Copy, Debug)]
pub struct CVec<const N: usize> {
    data: [Q; N],
}

pub type Vec3 = CVec<3>;

pub type Color = Vec3;

pub type Point = Vec3;

/// Componentwise sum.
pub open spec fn v_add(a: Seq<Rat>, b: Seq<Rat>) -> Seq<Rat> {
    Seq::new(a.len(), |i: int| rat_norm(rat_add(a[i], b[i])))
}

/// Componentwise difference.
pub open spec fn v_sub(a: Seq<Rat>, b: Seq<Rat>) -> Seq<Rat> {
    Seq::new(a.len(), |i: int| rat_norm(rat_sub(a[i], b[i])))
}

/// Componentwise product.
pub open spec fn v_cmul(a: Seq<Rat>, b: Seq<Rat>) -> Seq<Rat> {
    Seq::new(a.len(), |i: int| rat_norm(rat_mul(a[i], b[i])))
}

/// Every component scaled by `k`.
pub open spec fn v_scale(a: Seq<Rat>, k: Rat) -> Seq<Rat> {
    Seq::new(a.len(), |i: int| rat_norm(rat_mul(a[i], k)))
}

/// Division by a scalar: scaling by its reciprocal.
pub open spec fn v_div(a: Seq<Rat>, k: Rat) -> Seq<Rat> {
    v_scale(a, rat_norm(rat_div(rat_one(), k)))
}

/// Negation: scaling by minus one.
pub open spec fn v_neg(a: Seq<Rat>) -> Seq<Rat> {
    v_scale(a, rat_neg(rat_one()))
}

/// The dot product of the first `n` components, folded left as the
/// executable loop folds it.
pub open spec fn v_dot_prefix(a: Seq<Rat>, b: Seq<Rat>, n: int) -> Rat
    decreases n,
{
    if n <= 0 {
        rat_zero()
    } else {
        rat_norm(rat_add(v_dot_prefix(a, b, n - 1), rat_norm(rat_mul(a[n - 1], b[n - 1]))))
    }
}

/// The dot product.
pub open spec fn v_dot(a: Seq<Rat>, b: Seq<Rat>) -> Rat {
    v_dot_prefix(a, b, a.len() as int)
}

/// The squared length.
pub open spec fn v_len_sq(a: Seq<Rat>) -> Rat {
    v_dot(a, a)
}

/// The length: the square root of the squared length.
pub open spec fn v_len(a: Seq<Rat>) -> Rat {
    rat_sqrt(v_len_sq(a))
}

/// The unit vector: the vector divided by its length.
pub open spec fn v_unit(a: Seq<Rat>) -> Seq<Rat> {
    v_div(a, v_len(a))
}

/// The threshold below which a vector counts as degenerate.
pub open spec fn rat_eps() -> Rat {
    Rat { n: 1, d: 100000000 }
}

/// Every component's magnitude lies below the degeneracy threshold.
pub open spec fn v_near_zero(a: Seq<Rat>) -> bool {
    forall|i: int| 0 <= i < a.len() ==> rat_lt(rat_abs(#[trigger] a[i]), rat_eps())
}

/// The cross product of two length-three vectors.
pub open spec fn v_cross(a: Seq<Rat>, b: Seq<Rat>) -> Seq<Rat> {
    seq![
        rat_norm(rat_sub(rat_norm(rat_mul(a[1], b[2])), rat_norm(rat_mul(a[2], b[1])))),
        rat_norm(rat_sub(rat_norm(rat_mul(a[2], b[0])), rat_norm(rat_mul(a[0], b[2])))),
        rat_norm(rat_sub(rat_norm(rat_mul(a[0], b[1])), rat_norm(rat_mul(a[1], b[0])))),
    ]
}

/// Mirror reflection of `v` about the normal `n`:
/// `v - n * 2 * dot(v, n)`.
pub open spec fn v_reflect(v: Seq<Rat>, n: Seq<Rat>) -> Seq<Rat> {
    v_sub(v, v_scale(v_scale(n, Rat { n: 2, d: 1 }), v_dot(v, n)))
}

impl<const N: usize> View for CVec<N> {
    type V = Seq<Rat>;

    closed spec fn view(&self) -> Seq<Rat> {
        self.data@.map_values(|q: Q| q@)
    }
}

impl<const N: usize> CVec<N> {
    /// A vector's model always has exactly `N` components.
    pub proof fn lemma_len(self)
        ensures
            self@.len() == N,
    {
    }

    /// The components as a slice.
    pub fn data(&self) -> (r: &[Q])
        ensures
            r@.len() == N,
            forall|i: int| 0 <= i < N ==> r@[i]@ == self@[i],
    {
        self.data.as_slice()
    }

    /// The components as a mutable slice.
    pub fn data_mut(&mut self) -> (r: &mut [Q])
        ensures
            r@.len() == N,
            forall|i: int| 0 <= i < N ==> r@[i]@ == old(self)@[i],
            final(self)@ == final(r)@.map_values(|q: Q| q@),
    {
        vstd::array::ref_mut_array_unsizing_coercion(&mut self.data)
    }

    /// The number of components.
    pub fn len(&self) -> (r: usize)
        ensures
            r == N,
    {
        N
    }

    /// The component at `i`.
    pub fn get(&self, i: usize) -> (r: Q)
        requires
            i < N,
        ensures
            r@ == self@[i as int],
    {
        self.data[i]
    }
}

impl<const N: usize> From<[Q; N]> for CVec<N> {
    /// A vector from its array of components.
    fn from(data: [Q; N]) -> (r: CVec<N>)
        ensures
            r@.len() == N,
            forall|i: int| 0 <= i < N ==> r@[i] == data@[i]@,
    {
        CVec { data }
    }
}

impl<const N: usize> vstd::std_specs::convert::FromSpecImpl<[Q; N]> for CVec<N> {
    open spec fn obeys_from_spec() -> bool {
        false
    }

    open spec fn from_spec(data: [Q; N]) -> CVec<N> {
        arbitrary()
    }
}

impl Default for Q {
    /// The zero scalar.
    fn default() -> (r: Q)
        ensures
            r@ == rat_zero(),
    {
        Q::zero()
    }
}

impl<const N: usize> Default for CVec<N> {
    /// The zero vector.
    fn default() -> (r: CVec<N>)
        ensures
            r@.len() == N,
            forall|i: int| 0 <= i < N ==> r@[i] == rat_zero(),
    {
        let z = Q::zero();
        let r = CVec { data: vstd::array::array_fill_for_copy_types::<Q, N>(z) };
        proof {
            assert(forall|i: int| 0 <= i < N ==> r.data@[i] == z);
            assert(forall|i: int| 0 <= i < N ==> r@[i] == rat_zero());
        }
        r
    }
}

impl<const N: usize> PartialEq for CVec<N> {
    /// Componentwise equality of the rational values.
    fn eq(&self, other: &CVec<N>) -> (r: bool) {
        let mut i: usize = 0;
        while i < N
            invariant
                i <= N,
                forall|j: int| 0 <= j < i ==> rat_eq(self@[j], other@[j]),
            decreases N - i,
        {
            if !(self.data[i] == other.data[i]) {
                proof {
                    assert(!rat_eq(self@[i as int], other@[i as int]));
                }
                return false;
            }
            i += 1;
        }
        true
    }
}

impl<const N: usize> vstd::std_specs::cmp::PartialEqSpecImpl for CVec<N> {
    open spec fn obeys_eq_spec() -> bool {
        true
    }

    open spec fn eq_spec(&self, other: &CVec<N>) -> bool {
        forall|i: int| 0 <= i < N ==> rat_eq(self@[i], other@[i])
    }
}

impl<const N: usize> core::ops::Add for CVec<N> {
    type Output = CVec<N>;

    /// Componentwise sum.
    fn add(self, rhs: CVec<N>) -> (r: CVec<N>)
        ensures
            r@ == v_add(self@, rhs@),
    {
        let z = Q::zero();
        let mut next = [z;N];
        let mut i: usize = 0;
        while i < N
            invariant
                i <= N,
                next@.len() == N,
                forall|j: int| 0 <= j < i ==> next@[j]@ == rat_norm(rat_add(self@[j], rhs@[j])),
            decreases N - i,
        {
            next[i] = self.data[i] + rhs.data[i];
            i += 1;
        }
        let r = CVec { data: next };
        proof {
            assert(r@ =~= v_add(self@, rhs@));
        }
        r
    }
}

impl<const N: usize> vstd::std_specs::ops::AddSpecImpl for CVec<N> {
    open spec fn obeys_add_spec() -> bool {
        false
    }

    open spec fn add_req(self, rhs: CVec<N>) -> bool {
        true
    }

    open spec fn add_spec(self, rhs: CVec<N>) -> CVec<N> {
        arbitrary()
    }
}

impl<const N: usize> core::ops::Sub for CVec<N> {
    type Output = CVec<N>;

    /// Componentwise difference.
    fn sub(self, rhs: CVec<N>) -> (r: CVec<N>)
        ensures
            r@ == v_sub(self@, rhs@),
    {
        let z = Q::zero();
        let mut next = [z;N];
        let mut i: usize = 0;
        while i < N
            invariant
                i <= N,
                next@.len() == N,
                forall|j: int| 0 <= j < i ==> next@[j]@ == rat_norm(rat_sub(self@[j], rhs@[j])),
            decreases N - i,
        {
            next[i] = self.data[i] - rhs.data[i];
            i += 1;
        }
        let r = CVec { data: next };
        proof {
            assert(r@ =~= v_sub(self@, rhs@));
        }
        r
    }
}

impl<const N: usize> vstd::std_specs::ops::SubSpecImpl for CVec<N> {
    open spec fn obeys_sub_spec() -> bool {
        false
    }

    open spec fn sub_req(self, rhs: CVec<N>) -> bool {
        true
    }

    open spec fn sub_spec(self, rhs: CVec<N>) -> CVec<N> {
        arbitrary()
    }
}

impl<const N: usize> core::ops::Mul for CVec<N> {
    type Output = CVec<N>;

    /// Componentwise product.
    fn mul(self, rhs: CVec<N>) -> (r: CVec<N>)
        ensures
            r@ == v_cmul(self@, rhs@),
    {
        let z = Q::zero();
        let mut next = [z;N];
        let mut i: usize = 0;
        while i < N
            invariant
                i <= N,
                next@.len() == N,
                forall|j: int| 0 <= j < i ==> next@[j]@ == rat_norm(rat_mul(self@[j], rhs@[j])),
            decreases N - i,
        {
            next[i] = self.data[i] * rhs.data[i];
            i += 1;
        }
        let r = CVec { data: next };
        proof {
            assert(r@ =~= v_cmul(self@, rhs@));
        }
        r
    }
}

impl<const N: usize> vstd::std_specs::ops::MulSpecImpl for CVec<N> {
    open spec fn obeys_mul_spec() -> bool {
        false
    }

    open spec fn mul_req(self, rhs: CVec<N>) -> bool {
        true
    }

    open spec fn mul_spec(self, rhs: CVec<N>) -> CVec<N> {
        arbitrary()
    }
}

impl<const N: usize> core::ops::Mul<Q> for CVec<N> {
    type Output = CVec<N>;

    /// Every component scaled by `rhs`.
    fn mul(self, rhs: Q) -> (r: CVec<N>)
        ensures
            r@ == v_scale(self@, rhs@),
    {
        let z = Q::zero();
        let mut next = [z;N];
        let mut i: usize = 0;
        while i < N
            invariant
                i <= N,
                next@.len() == N,
                forall|j: int| 0 <= j < i ==> next@[j]@ == rat_norm(rat_mul(self@[j], rhs@)),
            decreases N - i,
        {
            next[i] = self.data[i] * rhs;
            i += 1;
        }
        let r = CVec { data: next };
        proof {
            assert(r@ =~= v_scale(self@, rhs@));
        }
        r
    }
}

impl<const N: usize> vstd::std_specs::ops::MulSpecImpl<Q> for CVec<N> {
    open spec fn obeys_mul_spec() -> bool {
        false
    }

    open spec fn mul_req(self, rhs: Q) -> bool {
        true
    }

    open spec fn mul_spec(self, rhs: Q) -> CVec<N> {
        arbitrary()
    }
}

impl<const N: usize> core::ops::Mul<CVec<N>> for Q {
    type Output = CVec<N>;

    /// A scalar times a vector: the vector scaled.
    fn mul(self, rhs: CVec<N>) -> (r: CVec<N>)
        ensures
            r@ == v_scale(rhs@, self@),
    {
        rhs * self
    }
}

impl<const N: usize> vstd::std_specs::ops::MulSpecImpl<CVec<N>> for Q {
    open spec fn obeys_mul_spec() -> bool {
        false
    }

    open spec fn mul_req(self, rhs: CVec<N>) -> bool {
        true
    }

    open spec fn mul_spec(self, rhs: CVec<N>) -> CVec<N> {
        arbitrary()
    }
}

impl<const N: usize> core::ops::Div<Q> for CVec<N> {
    type Output = CVec<N>;

    /// Division by a scalar: scaling by its reciprocal.
    fn div(self, rhs: Q) -> (r: CVec<N>)
        ensures
            r@ == v_div(self@, rhs@),
    {
        self * (Q::one() / rhs)
    }
}

impl<const N: usize> vstd::std_specs::ops::DivSpecImpl<Q> for CVec<N> {
    open spec fn obeys_div_spec() -> bool {
        false
    }

    open spec fn div_req(self, rhs: Q) -> bool {
        true
    }

    open spec fn div_spec(self, rhs: Q) -> CVec<N> {
        arbitrary()
    }
}

impl<const N: usize> core::ops::Neg for CVec<N> {
    type Output = CVec<N>;

    /// Negation: scaling by minus one.
    fn neg(self) -> (r: CVec<N>)
        ensures
            r@ == v_neg(self@),
    {
        let m = Q::zero() - Q::one();
        self * m
    }
}

impl<const N: usize> vstd::std_specs::ops::NegSpecImpl for CVec<N> {
    open spec fn obeys_neg_spec() -> bool {
        false
    }

    open spec fn neg_req(self) -> bool {
        true
    }

    open spec fn neg_spec(self) -> CVec<N> {
        arbitrary()
    }
}

impl<const N: usize> CVec<N> {
    /// In-place componentwise sum.
    pub fn add_assign(&mut self, rhs: CVec<N>)
        ensures
            final(self)@ == v_add(old(self)@, rhs@),
    {
        *self = *self + rhs;
    }

    /// In-place scaling.
    pub fn mul_assign(&mut self, rhs: Q)
        ensures
            final(self)@ == v_scale(old(self)@, rhs@),
    {
        *self = *self * rhs;
    }

    /// In-place division by a scalar, as scaling by its reciprocal.
    pub fn div_assign(&mut self, rhs: Q)
        ensures
            final(self)@ == v_div(old(self)@, rhs@),
    {
        *self = *self / rhs;
    }

    /// The negation, as a method (the unary operator in prose).
    pub fn negate(self) -> (r: CVec<N>)
        ensures
            r@ == v_neg(self@),
    {
        let m = Q::zero() - Q::one();
        proof {
            assert(m@ == rat_neg(rat_one()));
        }
        self * m
    }

    /// The sum of the squares of the components.
    pub fn length_squared(&self) -> (r: Q)
        ensures
            r@ == v_len_sq(self@),
    {
        let mut res = Q::zero();
        let mut i: usize = 0;
        while i < N
            invariant
                i <= N,
                res@ == v_dot_prefix(self@, self@, i as int),
            decreases N - i,
        {
            let val = self.data[i];
            res = res + val * val;
            i += 1;
        }
        res
    }

    /// The length.
    pub fn length(&self) -> (r: Q)
        ensures
            r@ == v_len(self@),
    {
        self.length_squared().sqrt()
    }

    /// The vector divided by its length.  A zero vector has length zero and
    /// yields saturated components, which callers are expected to avoid.
    pub fn unit_vector(&self) -> (r: CVec<N>)
        ensures
            r@ == v_unit(self@),
    {
        let l = self.length();
        *self / l
    }

    /// Whether every component's magnitude lies below the degeneracy
    /// threshold.
    pub fn near_zero(&self) -> (r: bool)
        ensures
            r == v_near_zero(self@),
    {
        let s = Q::new(1, 100000000);
        let mut i: usize = 0;
        while i < N
            invariant
                i <= N,
                s@ == rat_eps(),
                forall|j: int| 0 <= j < i ==> rat_lt(rat_abs(#[trigger] self@[j]), rat_eps()),
            decreases N - i,
        {
            if !self.data[i].abs().lt(&s) {
                proof {
                    assert(!rat_lt(rat_abs(self@[i as int]), rat_eps()));
                }
                return false;
            }
            i += 1;
        }
        true
    }
}

/// The dot product of two vectors.
pub fn dot<const N: usize>(l: CVec<N>, r: CVec<N>) -> (res: Q)
    ensures
        res@ == v_dot(l@, r@),
{
    let mut res = Q::zero();
    let mut i: usize = 0;
    while i < N
        invariant
            i <= N,
            res@ == v_dot_prefix(l@, r@, i as int),
        decreases N - i,
    {
        res = res + l.get(i) * r.get(i);
        i += 1;
    }
    res
}

/// Mirror reflection of `v` about the normal `n`.
pub fn reflect<const N: usize>(v: CVec<N>, n: CVec<N>) -> (r: CVec<N>)
    ensures
        r@ == v_reflect(v@, n@),
{
    v - n * Q::from_int(2) * dot(v, n)
}

/// Snell's-law refraction of the unit direction `uv` at a surface with unit
/// normal `n`: the perpendicular part from the incoming direction and the
/// clamped incidence cosine, the parallel part from the remaining length,
/// with a defensive absolute value against rounding residue.
pub open spec fn v_refract(uv: Seq<Rat>, n: Seq<Rat>, eta: Rat) -> Seq<Rat> {
    let cos_theta = rat_min(v_dot(v_neg(uv), n), rat_one());
    let perp = v_scale(v_add(uv, v_scale(n, cos_theta)), eta);
    let t = rat_neg(rat_sqrt(rat_abs(rat_norm(rat_sub(rat_one(), v_len_sq(perp))))));
    v_add(perp, v_scale(n, t))
}

/// Refraction of `uv` about `n` with refraction ratio `etai_over_etat`.
pub fn refract<const N: usize>(uv: CVec<N>, n: CVec<N>, etai_over_etat: Q) -> (r: CVec<N>)
    ensures
        r@ == v_refract(uv@, n@, etai_over_etat@),
{
    let cos_theta = dot(uv.negate(), n).min(Q::one());
    let r_out_perp = (uv + n * cos_theta) * etai_over_etat;
    let t = (Q::one() - r_out_perp.length_squared()).abs().sqrt().negate();
    let r_out_parallel = n * t;
    r_out_perp + r_out_parallel
}

impl CVec<3> {
    /// A length-three vector from its components.
    pub fn new(x: Q, y: Q, z: Q) -> (r: Vec3)
        ensures
            r@ == seq![x@, y@, z@],
    {
        let r = CVec { data: [x, y, z] };
        proof {
            assert(r@ =~= seq![x@, y@, z@]);
        }
        r
    }

    /// The first component.
    pub fn x(&self) -> (r: Q)
        ensures
            r@ == self@[0],
    {
        self.data[0]
    }

    /// The second component.
    pub fn y(&self) -> (r: Q)
        ensures
            r@ == self@[1],
    {
        self.data[1]
    }

    /// The third component.
    pub fn z(&self) -> (r: Q)
        ensures
            r@ == self@[2],
    {
        self.data[2]
    }

    /// The cross product.
    pub fn cross(&self, rhs: &Vec3) -> (r: Vec3)
        ensures
            r@ == v_cross(self@, rhs@),
    {
        let a = &self.data;
        let b = &rhs.data;
        let r = CVec {
            data: [a[1] * b[2] - a[2] * b[1], a[2] * b[0] - a[0] * b[2], a[0] * b[1] - a[1] * b[0]],
        };
        proof {
            assert(r@ =~= v_cross(self@, rhs@));
        }
        r
    }
}

/// The cross product of two length-three vectors.
#[inline]
pub fn cross(l: &Vec3, r: &Vec3) -> (res: Vec3)
    ensures
        res@ == v_cross(l@, r@),
{
    l.cross(r)
}

/// How many rejection-sampling attempts are made before falling back to the
/// zero vector (which every acceptance test admits).
pub const SAMPLE_TRIES: usize = 64;

/// The all-zero vector of `n` components.
pub open spec fn v_zero(n: int) -> Seq<Rat> {
    Seq::new(n as nat, |i: int| rat_zero())
}

/// `n` components drawn uniformly from `[lo, hi)`, first component first,
/// one draw each.
pub open spec fn vr_range(s: u64, lo: Rat, hi: Rat, n: int) -> (Seq<Rat>, u64)
    decreases n,
{
    if n <= 0 {
        (Seq::empty(), s)
    } else {
        let pre = vr_range(s, lo, hi, n - 1);
        (pre.0.push(rng_range(pre.1, lo, hi)), rng_next(pre.1))
    }
}

/// Rejection sampling for a point in the unit sphere: draw a candidate in
/// `[-1, 1)` per component and keep the first with squared length below one;
/// after `fuel` failures fall back to the zero vector.
pub open spec fn vr_sphere_loop(s: u64, n: int, fuel: int) -> (Seq<Rat>, u64)
    decreases fuel,
{
    if fuel <= 0 {
        (v_zero(n), s)
    } else {
        let cand = vr_range(s, Rat { n: -1, d: 1 }, Rat { n: 1, d: 1 }, n);
        if rat_lt(v_len_sq(cand.0), rat_one()) {
            cand
        } else {
            vr_sphere_loop(cand.1, n, fuel - 1)
        }
    }
}

/// A random point in the unit sphere.
pub open spec fn vr_sphere(s: u64, n: int) -> (Seq<Rat>, u64) {
    vr_sphere_loop(s, n, SAMPLE_TRIES as int)
}

/// A random point in the hemisphere around `normal`: a unit-sphere point,
/// flipped when it opposes the normal.
pub open spec fn vr_hemisphere(s: u64, normal: Seq<Rat>, n: int) -> (Seq<Rat>, u64) {
    let c = vr_sphere(s, n);
    if rat_lt(rat_zero(), v_dot(c.0, normal)) {
        c
    } else {
        (v_neg(c.0), c.1)
    }
}

/// Rejection sampling for a point in the unit disk: a three-component
/// candidate with its third component zeroed before the acceptance test.
pub open spec fn vr_disk_loop(s: u64, fuel: int) -> (Seq<Rat>, u64)
    decreases fuel,
{
    if fuel <= 0 {
        (v_zero(3), s)
    } else {
        let cand = vr_range(s, Rat { n: -1, d: 1 }, Rat { n: 1, d: 1 }, 3);
        let p = cand.0.update(2, rat_zero());
        if rat_lt(v_len_sq(p), rat_one()) {
            (p, cand.1)
        } else {
            vr_disk_loop(cand.1, fuel - 1)
        }
    }
}

/// A random point in the unit disk.
pub open spec fn vr_disk(s: u64) -> (Seq<Rat>, u64) {
    vr_disk_loop(s, SAMPLE_TRIES as int)
}

/// The drawn sequence has one component per draw.
pub proof fn lemma_vr_range_len(s: u64, lo: Rat, hi: Rat, n: int)
    requires
        0 <= n,
    ensures
        vr_range(s, lo, hi, n).0.len() == n,
    decreases n,
{
    if n > 0 {
        lemma_vr_range_len(s, lo, hi, n - 1);
    }
}

/// The zero vector's squared length is zero.
pub proof fn lemma_v_zero_len_sq(n: int)
    requires
        0 <= n,
    ensures
        v_dot_prefix(v_zero(n), v_zero(n), n) == rat_zero(),
    decreases n,
{
    if n > 0 {
        lemma_v_zero_len_sq(n - 1);
        assert(v_dot_prefix(v_zero(n), v_zero(n), n - 1) == v_dot_prefix(
            v_zero(n - 1),
            v_zero(n - 1),
            n - 1,
        )) by {
            lemma_v_dot_prefix_agree(v_zero(n), v_zero(n), v_zero(n - 1), v_zero(n - 1), n - 1);
        }
    }
}

/// Negating one argument negates the folded dot product: every step of
/// the fold is sign-symmetric.
pub proof fn lemma_dot_prefix_neg(p: Seq<Rat>, n: Seq<Rat>, k: int)
    requires
        k <= p.len(),
        forall|i: int| 0 <= i < k ==> rat_wf(#[trigger] p[i]),
        forall|i: int| 0 <= i < k ==> 0 < #[trigger] n[i].d,
    ensures
        v_dot_prefix(v_neg(p), n, k) == rat_neg(v_dot_prefix(p, n, k)),
        0 < v_dot_prefix(p, n, k).d,
    decreases k,
{
    if k <= 0 {
        assert(rat_neg(rat_zero()) == rat_zero());
    } else {
        lemma_dot_prefix_neg(p, n, k - 1);
        let i = k - 1;
        // The negated vector's component is exactly the negated component.
        assert(v_neg(p)[i] == rat_norm(rat_mul(p[i], rat_neg(rat_one()))));
        assert(p[i].n * -1 == -p[i].n) by (nonlinear_arith);
        assert(rat_mul(p[i], rat_neg(rat_one())) == rat_neg(p[i]));
        crate::scalar::lemma_norm_neg(p[i]);
        assert(v_neg(p)[i] == rat_neg(p[i]));
        // The product negates.
        let mp = rat_mul(p[i], n[i]);
        assert((-p[i].n) * n[i].n == -(p[i].n * n[i].n)) by (nonlinear_arith);
        assert(rat_mul(rat_neg(p[i]), n[i]) == rat_neg(mp));
        crate::scalar::lemma_pos_mul(p[i].d, n[i].d);
        crate::scalar::lemma_norm_neg(mp);
        crate::scalar::lemma_norm_wf(mp);
        let nmp = rat_norm(mp);
        // The running sum negates, in either denominator branch.
        let pre = v_dot_prefix(p, n, i);
        assert((-pre.n) * nmp.d == -(pre.n * nmp.d)) by (nonlinear_arith);
        assert((-nmp.n) * pre.d == -(nmp.n * pre.d)) by (nonlinear_arith);
        assert(rat_add(rat_neg(pre), rat_neg(nmp)) == rat_neg(rat_add(pre, nmp)));
        crate::scalar::lemma_pos_mul(pre.d, nmp.d);
        crate::scalar::lemma_norm_neg(rat_add(pre, nmp));
        crate::scalar::lemma_norm_wf(rat_add(pre, nmp));
    }
}

/// The dot-product fold only reads the first `n` components.
pub proof fn lemma_v_dot_prefix_agree(a: Seq<Rat>, b: Seq<Rat>, a2: Seq<Rat>, b2: Seq<Rat>, n: int)
    requires
        forall|i: int| 0 <= i < n ==> a[i] == a2[i] && b[i] == b2[i],
    ensures
        v_dot_prefix(a, b, n) == v_dot_prefix(a2, b2, n),
    decreases n,
{
    if n > 0 {
        lemma_v_dot_prefix_agree(a, b, a2, b2, n - 1);
    }
}

impl<const N: usize> CVec<N> {
    /// Replaces the component at `i`.
    pub fn set(&mut self, i: usize, v: Q)
        requires
            i < N,
        ensures
            final(self)@ == old(self)@.update(i as int, v@),
    {
        self.data[i] = v;
        proof {
            assert(self@ =~= old(self)@.update(i as int, v@));
        }
    }

    /// Every component drawn as `lo + (hi - lo) * u`, one unit draw each;
    /// as with the scalar draw, grid rounding can carry a component one
    /// step outside a range whose endpoints the scalar cannot represent.
    pub fn random_range(rng: &mut Prng, lo: Q, hi: Q) -> (r: CVec<N>)
        ensures
            r@ == vr_range(old(rng)@, lo@, hi@, N as int).0,
            final(rng)@ == vr_range(old(rng)@, lo@, hi@, N as int).1,
            forall|i: int| 0 <= i < N ==> rat_wf(#[trigger] r@[i]),
    {
        let ghost s0 = rng@;
        let one_q = Q::one();
        let mut data = vstd::array::array_fill_for_copy_types::<Q, N>(one_q);
        let mut i: usize = 0;
        while i < N
            invariant
                i <= N,
                data@.len() == N,
                rng@ == vr_range(s0, lo@, hi@, i as int).1,
                vr_range(s0, lo@, hi@, i as int).0 =~= Seq::new(
                    i as nat,
                    |j: int| data@[j]@,
                ),
                forall|j: int| 0 <= j < i ==> rat_wf(#[trigger] data@[j]@),
            decreases N - i,
        {
            proof {
                lemma_vr_range_len(s0, lo@, hi@, i as int);
            }
            let v = crate::rtweekend::rand_range(rng, lo, hi);
            data[i] = v;
            i += 1;
            proof {
                lemma_vr_range_len(s0, lo@, hi@, i as int);
                assert(vr_range(s0, lo@, hi@, i as int).0 =~= Seq::new(
                    i as nat,
                    |j: int| data@[j]@,
                ));
            }
        }
        let r = CVec { data };
        proof {
            assert(r@ =~= vr_range(s0, lo@, hi@, N as int).0);
        }
        r
    }

    /// A random point in the unit sphere: the first candidate drawn in
    /// `[-1, 1)` per component whose squared length is below one.  Unlike
    /// uncapped retrying, after `SAMPLE_TRIES` failures the zero vector is
    /// returned (termination demands the cap; the fallback passes every
    /// acceptance test and is never reached in practice).  The result's
    /// squared length is below one.
    #[verifier::rlimit(100)]
    pub fn random_in_unit_sphere(rng: &mut Prng) -> (r: CVec<N>)
        ensures
            r@ == vr_sphere(old(rng)@, N as int).0,
            final(rng)@ == vr_sphere(old(rng)@, N as int).1,
            rat_lt(v_len_sq(r@), rat_one()),
            forall|i: int| 0 <= i < N ==> rat_wf(#[trigger] r@[i]),
    {
        let ghost s0 = rng@;
        let one_q = Q::one();
        let lo = Q::zero() - one_q;
        proof {
            assert(lo@ == (Rat { n: -1, d: 1 }));
        }
        let mut tries: usize = 0;
        while tries < SAMPLE_TRIES
            invariant
                tries <= SAMPLE_TRIES,
                lo@ == (Rat { n: -1, d: 1 }),
                one_q@ == rat_one(),
                s0 == old(rng)@,
                vr_sphere(s0, N as int) == vr_sphere_loop(rng@, N as int, (SAMPLE_TRIES - tries) as int),
            decreases SAMPLE_TRIES - tries,
        {
            let ghost fuel = (SAMPLE_TRIES - tries) as int;
            let ghost s_cur = rng@;
            let p = Self::random_range(rng, lo, one_q);
            let ghost cand = vr_range(s_cur, Rat { n: -1, d: 1 }, Rat { n: 1, d: 1 }, N as int);
            let accepted = p.length_squared().lt(&one_q);
            proof {
                if accepted {
                    assert(vr_sphere_loop(s_cur, N as int, fuel) == cand);
                } else {
                    assert(vr_sphere_loop(s_cur, N as int, fuel) == vr_sphere_loop(
                        cand.1,
                        N as int,
                        fuel - 1,
                    ));
                }
            }
            if accepted {
                return p;
            }
            tries += 1;
        }
        let r = Self::default();
        proof {
            assert(r@ =~= v_zero(N as int));
            lemma_v_zero_len_sq(N as int);
        }
        r
    }

    /// Establishes, as a proof fact, that every stored component's model is
    /// in bounds.
    fn note_components_wf(&self)
        ensures
            forall|i: int| 0 <= i < N ==> rat_wf(#[trigger] self@[i]),
    {
        let mut i: usize = 0;
        while i < N
            invariant
                i <= N,
                forall|j: int| 0 <= j < i ==> rat_wf(#[trigger] self@[j]),
            decreases N - i,
        {
            let v = self.data[i];
            proof {
                use_type_invariant(&v);
                assert(rat_wf(self@[i as int]));
            }
            i += 1;
        }
    }

    /// A random unit vector: a unit-sphere point normalized.
    pub fn random_unit_vector(rng: &mut Prng) -> (r: CVec<N>)
        ensures
            r@ == v_unit(vr_sphere(old(rng)@, N as int).0),
            final(rng)@ == vr_sphere(old(rng)@, N as int).1,
    {
        Self::random_in_unit_sphere(rng).unit_vector()
    }

    /// A random unit-sphere point lying in the same hemisphere as `self`:
    /// the candidate is flipped when its normal component is not strictly
    /// positive, so the result's dot product with `self` is never negative
    /// (it is zero exactly in the tangent case, where no flip could make it
    /// positive).
    pub fn random_in_hemisphere(&self, rng: &mut Prng) -> (r: CVec<N>)
        ensures
            r@ == vr_hemisphere(old(rng)@, self@, N as int).0,
            final(rng)@ == vr_hemisphere(old(rng)@, self@, N as int).1,
            rat_le(rat_zero(), v_dot(r@, self@)),
    {
        self.note_components_wf();
        let in_unit = Self::random_in_unit_sphere(rng);
        if dot(in_unit, *self).gt(&Q::zero()) {
            in_unit
        } else {
            let m = Q::zero() - Q::one();
            proof {
                assert(m@ == rat_neg(rat_one()));
                lemma_dot_prefix_neg(in_unit@, self@, N as int);
            }
            in_unit * m
        }
    }
}

impl CVec<3> {
    /// A random point in the unit disk in the first two coordinates.
    #[verifier::rlimit(100)]
    pub fn random_in_unit_disk(rng: &mut Prng) -> (r: Vec3)
        ensures
            r@ == vr_disk(old(rng)@).0,
            final(rng)@ == vr_disk(old(rng)@).1,
            rat_lt(v_len_sq(r@), rat_one()),
    {
        let ghost s0 = rng@;
        let one_q = Q::one();
        let lo = Q::zero() - one_q;
        proof {
            assert(lo@ == (Rat { n: -1, d: 1 }));
        }
        let mut tries: usize = 0;
        while tries < SAMPLE_TRIES
            invariant
                tries <= SAMPLE_TRIES,
                lo@ == (Rat { n: -1, d: 1 }),
                one_q@ == rat_one(),
                s0 == old(rng)@,
                vr_disk(s0) == vr_disk_loop(rng@, (SAMPLE_TRIES - tries) as int),
            decreases SAMPLE_TRIES - tries,
        {
            let ghost fuel = (SAMPLE_TRIES - tries) as int;
            let ghost s_cur = rng@;
            let mut p = Self::random_range(rng, lo, one_q);
            p.set(2, Q::zero());
            let ghost cand = vr_range(s_cur, Rat { n: -1, d: 1 }, Rat { n: 1, d: 1 }, 3);
            let accepted = p.length_squared().lt(&one_q);
            proof {
                assert(p@ == cand.0.update(2, rat_zero()));
                if accepted {
                    assert(vr_disk_loop(s_cur, fuel) == (p@, cand.1));
                } else {
                    assert(vr_disk_loop(s_cur, fuel) == vr_disk_loop(cand.1, fuel - 1));
                }
            }
            if accepted {
                return p;
            }
            tries += 1;
        }
        let r = Self::default();
        proof {
            assert(r@ =~= v_zero(3));
            lemma_v_zero_len_sq(3);
        }
        r
    }
}

} // verus!
