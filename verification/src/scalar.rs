//! The scalar type of the ray tracer: an exact rational with bounded
//! representation.
//!
//! A value is a fraction of two `i128`s with a positive denominator.  Every
//! arithmetic operation first forms the exact fraction of its result; when
//! that fraction's numerator or denominator leaves the bounded representation
//! it is reduced by the greatest common divisor, which keeps the exact value
//! whenever the reduced form fits, and only a fraction that does not fit even
//! reduced is rounded onto a fixed grid (and, for very large magnitudes,
//! saturated), much as floating-point arithmetic rounds and overflows to an
//! infinity.  Each operation's contract states the resulting fraction exactly,
//! via the specification-level model [`Rat`].

use vstd::prelude::*;

verus! {

/// Largest denominator a stored value may keep.
pub const DEN_CAP: i128 = 0x1_0000_0000;

/// Denominator that out-of-bounds results are rounded to.
pub const GRID: i128 = 0x1_0000_0000;

/// Magnitude at which out-of-bounds results saturate.
pub const MAG_CAP: i128 = 0x4000_0000;

/// Largest numerator magnitude a stored value may keep.
pub const NUM_CAP: i128 = 0x4000_0000_0000_0000;

/// A rational number at the specification level: numerator `n` over
/// denominator `d`.  All contracts of [`Q`] are phrased over this model.
pub struct Rat {
    pub n: int,
    pub d: int,
}

/// A model fraction that fits the bounded representation.
pub open spec fn rat_wf(a: Rat) -> bool {
    0 < a.d <= DEN_CAP as int && -(NUM_CAP as int) <= a.n <= NUM_CAP as int
}

/// Equality of the rational values (valid for positive denominators).
pub open spec fn rat_eq(a: Rat, b: Rat) -> bool {
    a.n * b.d == b.n * a.d
}

/// `a <= b` as rational values (valid for positive denominators).
pub open spec fn rat_le(a: Rat, b: Rat) -> bool {
    a.n * b.d <= b.n * a.d
}

/// `a < b` as rational values (valid for positive denominators).
pub open spec fn rat_lt(a: Rat, b: Rat) -> bool {
    a.n * b.d < b.n * a.d
}

pub open spec fn rat_zero() -> Rat {
    Rat { n: 0, d: 1 }
}

pub open spec fn rat_one() -> Rat {
    Rat { n: 1, d: 1 }
}

/// The saturation value handed back when a magnitude grows past `MAG_CAP`
/// or when dividing by zero: magnitude `MAG_CAP` on the grid denominator.
pub open spec fn rat_sat(negative: bool) -> Rat {
    Rat { n: if negative { -(NUM_CAP as int) } else { NUM_CAP as int }, d: GRID as int }
}

/// Exact sum.  Operands sharing a denominator keep it.
pub open spec fn rat_add(a: Rat, b: Rat) -> Rat {
    if a.d == b.d {
        Rat { n: a.n + b.n, d: a.d }
    } else {
        Rat { n: a.n * b.d + b.n * a.d, d: a.d * b.d }
    }
}

/// Exact difference.  Operands sharing a denominator keep it.
pub open spec fn rat_sub(a: Rat, b: Rat) -> Rat {
    if a.d == b.d {
        Rat { n: a.n - b.n, d: a.d }
    } else {
        Rat { n: a.n * b.d - b.n * a.d, d: a.d * b.d }
    }
}

/// Exact product.
pub open spec fn rat_mul(a: Rat, b: Rat) -> Rat {
    Rat { n: a.n * b.n, d: a.d * b.d }
}

/// Exact negation.
pub open spec fn rat_neg(a: Rat) -> Rat {
    Rat { n: -a.n, d: a.d }
}

/// Exact quotient; division by zero saturates, keeping the dividend's sign.
pub open spec fn rat_div(a: Rat, b: Rat) -> Rat {
    if b.n == 0 {
        rat_sat(a.n < 0)
    } else if b.n > 0 {
        Rat { n: a.n * b.d, d: a.d * b.n }
    } else {
        Rat { n: (-a.n) * b.d, d: a.d * (-b.n) }
    }
}

/// Exact absolute value.
pub open spec fn rat_abs(a: Rat) -> Rat {
    Rat { n: if a.n < 0 { -a.n } else { a.n }, d: a.d }
}

/// Rounding of an exact result onto the grid, used when the exact fraction
/// left the bounded representation.  Requires a positive denominator.
pub open spec fn rat_snap(a: Rat) -> Rat
    recommends
        0 < a.d,
{
    let m = if a.n < 0 { -a.n } else { a.n };
    let whole = m / a.d;
    if whole >= MAG_CAP as int {
        rat_sat(a.n < 0)
    } else {
        let w = whole * (GRID as int) + ((m % a.d) * (GRID as int)) / a.d;
        Rat { n: if a.n < 0 { -w } else { w }, d: GRID as int }
    }
}

/// Euclid's greatest common divisor of two non-negative integers.  Opaque:
/// callers reason through [`lemma_gcd`].
#[verifier::opaque]
pub open spec fn gcd_spec(a: int, b: int) -> int
    recommends
        0 <= a,
        0 <= b,
    decreases b,
{
    if b <= 0 {
        a
    } else {
        gcd_spec(b, a % b)
    }
}

/// An out-of-bounds fraction reduced by the greatest common divisor of its
/// magnitude and denominator, signs untouched.
pub open spec fn rat_reduce(a: Rat) -> Rat
    recommends
        0 < a.d,
{
    let m = if a.n < 0 { -a.n } else { a.n };
    let g = gcd_spec(m, a.d);
    Rat { n: if a.n < 0 { -(m / g) } else { m / g }, d: a.d / g }
}

/// What every operation does to its exact result: keep it when it fits the
/// bounded representation; otherwise reduce the fraction, keeping the exact
/// value whenever the reduced form fits, and only then round it onto the
/// grid.
pub open spec fn rat_norm(a: Rat) -> Rat
    recommends
        0 < a.d,
{
    if rat_wf(a) {
        a
    } else {
        let red = rat_reduce(a);
        if rat_wf(red) {
            red
        } else {
            rat_snap(red)
        }
    }
}

/// Rounding lands inside the bounded representation.
pub proof fn lemma_snap_wf(a: Rat)
    requires
        0 < a.d,
    ensures
        rat_wf(rat_snap(a)),
        rat_snap(a).d == GRID as int || rat_snap(a) == a,
{
    let m = if a.n < 0 { -a.n } else { a.n };
    let whole = m / a.d;
    if whole >= MAG_CAP as int {
    } else {
        let frac = ((m % a.d) * (GRID as int)) / a.d;
        assert(0 <= m % a.d < a.d) by {
            vstd::arithmetic::div_mod::lemma_mod_bound(m, a.d);
        }
        assert(0 <= whole) by {
            vstd::arithmetic::div_mod::lemma_div_pos_is_pos(m, a.d);
        }
        assert(0 <= frac < GRID as int) by (nonlinear_arith)
            requires
                0 <= m % a.d < a.d,
                frac == ((m % a.d) * (GRID as int)) / a.d,
        ;
        assert(whole * (GRID as int) <= (MAG_CAP - 1) as int * (GRID as int)) by (nonlinear_arith)
            requires
                0 <= whole <= (MAG_CAP - 1) as int,
        ;
    }
}

/// A divisor of two integers divides any combination `q * x + y` of them.
proof fn lemma_divides_combo(x: int, y: int, q: int, g: int)
    requires
        g > 0,
        x % g == 0,
        y % g == 0,
    ensures
        (q * x + y) % g == 0,
{
    vstd::arithmetic::div_mod::lemma_fundamental_div_mod(x, g);
    vstd::arithmetic::div_mod::lemma_fundamental_div_mod(y, g);
    let k = x / g;
    let l = y / g;
    assert(q * x + y == (q * k + l) * g) by (nonlinear_arith)
        requires
            x == g * k,
            y == g * l,
    ;
    vstd::arithmetic::div_mod::lemma_mod_multiples_basic(q * k + l, g);
}

/// Euclid's algorithm finds a positive common divisor no larger than
/// either positive input.
pub proof fn lemma_gcd(a: int, b: int)
    requires
        0 <= a,
        0 < b,
    ensures
        1 <= gcd_spec(a, b) <= b,
        a % gcd_spec(a, b) == 0,
        b % gcd_spec(a, b) == 0,
        a > 0 ==> gcd_spec(a, b) <= a,
    decreases b,
{
    reveal_with_fuel(gcd_spec, 2);
    let g = gcd_spec(a, b);
    let r = a % b;
    vstd::arithmetic::div_mod::lemma_mod_bound(a, b);
    if r == 0 {
        assert(g == b);
        vstd::arithmetic::div_mod::lemma_mod_self_0(b);
        if a > 0 && b > a {
            vstd::arithmetic::div_mod::lemma_small_mod(a as nat, b as nat);
            assert(false);
        }
    } else {
        lemma_gcd(b, r);
        assert(g == gcd_spec(b, r));
        vstd::arithmetic::div_mod::lemma_fundamental_div_mod(a, b);
        lemma_divides_combo(b, r, a / b, g);
        // a is at least its remainder, so the divisor bound carries over.
        vstd::arithmetic::div_mod::lemma_div_pos_is_pos(a, b);
        assert(a >= r) by (nonlinear_arith)
            requires
                a == b * (a / b) + r,
                0 <= a / b,
                0 < b,
                0 <= r,
        ;
    }
}

/// Reducing keeps the denominator positive and shrinks nothing below one.
proof fn lemma_reduce_pos(a: Rat)
    requires
        0 < a.d,
    ensures
        0 < rat_reduce(a).d <= a.d,
        0 <= (if rat_reduce(a).n < 0 {
            -rat_reduce(a).n
        } else {
            rat_reduce(a).n
        }) <= (if a.n < 0 {
            -a.n
        } else {
            a.n
        }),
        rat_reduce(a).n < 0 <==> a.n < 0 && rat_reduce(a).n != 0,
{
    let m = if a.n < 0 {
        -a.n
    } else {
        a.n
    };
    let g = gcd_spec(m, a.d);
    lemma_gcd(m, a.d);
    vstd::arithmetic::div_mod::lemma_fundamental_div_mod(a.d, g);
    vstd::arithmetic::div_mod::lemma_div_pos_is_pos(a.d, g);
    assert(0 < a.d / g <= a.d) by (nonlinear_arith)
        requires
            a.d == g * (a.d / g),
            0 < a.d,
            1 <= g,
            0 <= a.d / g,
    ;
    vstd::arithmetic::div_mod::lemma_fundamental_div_mod(m, g);
    vstd::arithmetic::div_mod::lemma_div_pos_is_pos(m, g);
    assert(m / g <= m) by (nonlinear_arith)
        requires
            m == g * (m / g),
            0 <= m,
            1 <= g,
            0 <= m / g,
    ;
}

/// Normalization commutes with negation: the whole pipeline — bounds test,
/// reduction and grid rounding — is sign-symmetric.
pub proof fn lemma_norm_neg(a: Rat)
    requires
        0 < a.d,
    ensures
        rat_norm(rat_neg(a)) == rat_neg(rat_norm(a)),
{
    let b = rat_neg(a);
    if !rat_wf(a) {
        let m = if a.n < 0 {
            -a.n
        } else {
            a.n
        };
        lemma_gcd(m, a.d);
        lemma_reduce_pos(a);
        let ra = rat_reduce(a);
        let rb = rat_reduce(b);
        assert(rb == rat_neg(ra));
        if !rat_wf(ra) {
            let rd = ra.d;
            let rm = if ra.n < 0 {
                -ra.n
            } else {
                ra.n
            };
            if ra.n == 0 {
                // A zero numerator rounds to zero on both sides.
                vstd::arithmetic::div_mod::lemma_small_mod(0, rd as nat);
                assert(rat_snap(ra) == rat_snap(rb));
                assert(rat_snap(ra).n == 0);
            } else {
                assert(rat_snap(rb) == rat_neg(rat_snap(ra)));
            }
        }
    }
}

/// Normalizing lands inside the bounded representation.
pub proof fn lemma_norm_wf(a: Rat)
    requires
        0 < a.d,
    ensures
        rat_wf(rat_norm(a)),
{
    if !rat_wf(a) {
        lemma_reduce_pos(a);
        let red = rat_reduce(a);
        if !rat_wf(red) {
            lemma_snap_wf(red);
        }
    }
}

/// The scalar of the ray tracer: a rational number in a bounded
/// representation, behaving like an exact real until an operation's result
/// leaves the representation, at which point it is rounded or saturated.
#[derive(Clone, Copy, Debug)]
pub struct Q {
    pub(crate) n: i128,
    pub(crate) d: i128,
}

impl View for Q {
    type V = Rat;

    closed spec fn view(&self) -> Rat {
        Rat { n: self.n as int, d: self.d as int }
    }
}

impl Q {
    /// The stored fraction is always in bounds; `use_type_invariant` hands
    /// this fact to any holder of a value.
    #[verifier::type_invariant]
    pub open spec fn inv(self) -> bool {
        rat_wf(self@)
    }

    /// The numerator of the stored fraction.
    pub fn num(&self) -> (r: i128)
        ensures
            r == self@.n,
    {
        self.n
    }

    /// The denominator of the stored fraction; always positive.
    pub fn den(&self) -> (r: i128)
        ensures
            r == self@.d,
            0 < r,
    {
        proof {
            use_type_invariant(self);
        }
        self.d
    }

    pub fn zero() -> (r: Q)
        ensures
            r@ == rat_zero(),
    {
        Q { n: 0, d: 1 }
    }

    pub fn one() -> (r: Q)
        ensures
            r@ == rat_one(),
    {
        Q { n: 1, d: 1 }
    }

    /// The saturation value (magnitude `MAG_CAP` on the grid denominator),
    /// standing in for infinity as an interval bound.
    pub fn big() -> (r: Q)
        ensures
            r@ == rat_sat(false),
    {
        Q { n: NUM_CAP, d: GRID }
    }

    /// A value `n / GRID` from a numerator already known to be in bounds.
    pub(crate) fn from_grid(n: i128) -> (r: Q)
        requires
            -NUM_CAP <= n <= NUM_CAP,
        ensures
            r@ == (Rat { n: n as int, d: GRID as int }),
    {
        Q { n, d: GRID }
    }

    /// Brings an exact fraction into the bounded representation.
    pub(crate) fn norm(n: i128, d: i128) -> (r: Q)
        requires
            0 < d <= 0x4000_0000_0000_0000_0000_0000,  // 2^94
            -0x4000_0000_0000_0000_0000_0000_0000_0000 <= n
                <= 0x4000_0000_0000_0000_0000_0000_0000_0000,  // 2^126
        ensures
            r@ == rat_norm(Rat { n: n as int, d: d as int }),
            rat_wf(r@),
    {
        let ghost a = Rat { n: n as int, d: d as int };
        proof {
            lemma_norm_wf(a);
        }
        if -NUM_CAP <= n && n <= NUM_CAP && d <= DEN_CAP {
            Q { n, d }
        } else {
            let m: i128 = if n < 0 {
                -n
            } else {
                n
            };
            let g: i128 = gcd(m, d);
            proof {
                lemma_gcd(m as int, d as int);
                lemma_reduce_pos(a);
            }
            let rm: i128 = m / g;
            let rd: i128 = d / g;
            let rn: i128 = if n < 0 {
                -rm
            } else {
                rm
            };
            let ghost red = rat_reduce(a);
            proof {
                assert(red == (Rat { n: rn as int, d: rd as int }));
            }
            if -NUM_CAP <= rn && rn <= NUM_CAP && rd <= DEN_CAP {
                Q { n: rn, d: rd }
            } else {
                let whole: i128 = rm / rd;
                proof {
                    vstd::arithmetic::div_mod::lemma_div_pos_is_pos(rm as int, rd as int);
                    vstd::arithmetic::div_mod::lemma_mod_bound(rm as int, rd as int);
                    assert(whole <= rm) by (nonlinear_arith)
                        requires
                            0 < rd,
                            0 <= rm,
                            whole == rm as int / rd as int,
                    ;
                }
                if whole >= MAG_CAP {
                    proof {
                        lemma_snap_wf(red);
                    }
                    Q { n: if rn < 0 { -NUM_CAP } else { NUM_CAP }, d: GRID }
                } else {
                    let rem: i128 = rm % rd;
                    assert(rem * GRID <= 0x4000_0000_0000_0000_0000_0000_0000_0000)
                        by (nonlinear_arith)
                        requires
                            0 <= rem < rd <= 0x4000_0000_0000_0000_0000_0000,
                            GRID == 0x1_0000_0000,
                    ;
                    let frac: i128 = (rem * GRID) / rd;
                    proof {
                        lemma_snap_wf(red);
                        assert(frac as int == (rem as int * GRID as int) / rd as int);
                        assert(0 <= frac < GRID) by (nonlinear_arith)
                            requires
                                0 <= rem < rd,
                                0 < rd,
                                frac as int == (rem as int * GRID as int) / rd as int,
                                GRID == 0x1_0000_0000,
                        ;
                        assert(whole * GRID + frac < NUM_CAP) by (nonlinear_arith)
                            requires
                                0 <= whole < MAG_CAP,
                                0 <= frac < GRID,
                                MAG_CAP == 0x4000_0000,
                                GRID == 0x1_0000_0000,
                                NUM_CAP == 0x4000_0000_0000_0000,
                        ;
                    }
                    let w: i128 = whole * GRID + frac;
                    Q { n: if rn < 0 { -w } else { w }, d: GRID }
                }
            }
        }
    }

    /// A value from a numerator and a non-zero denominator; `new(1, 10)` is
    /// one tenth.  A negative denominator moves its sign to the numerator.
    pub fn new(num: i64, den: i64) -> (r: Q)
        requires
            den != 0,
        ensures
            r@ == rat_new(num as int, den as int),
    {
        let n: i128 = num as i128;
        let d: i128 = den as i128;
        if d < 0 {
            Q::norm(-n, -d)
        } else {
            Q::norm(n, d)
        }
    }

    /// A value from an integer.
    pub fn from_int(i: i64) -> (r: Q)
        ensures
            r@ == rat_norm(Rat { n: i as int, d: 1 }),
    {
        Q::norm(i as i128, 1)
    }
}

/// Euclid's algorithm for the greatest common divisor.
fn gcd(a: i128, b: i128) -> (r: i128)
    requires
        0 <= a,
        0 <= b,
    ensures
        r == gcd_spec(a as int, b as int),
{
    let mut x: i128 = a;
    let mut y: i128 = b;
    while y != 0
        invariant
            0 <= x,
            0 <= y,
            gcd_spec(x as int, y as int) == gcd_spec(a as int, b as int),
        decreases y,
    {
        let t: i128 = x % y;
        proof {
            reveal(gcd_spec);
            vstd::arithmetic::div_mod::lemma_mod_bound(x as int, y as int);
        }
        x = y;
        y = t;
    }
    proof {
        reveal(gcd_spec);
    }
    x
}

/// The model of [`Q::new`]: the fraction `num / den` brought into the
/// bounded representation.
pub open spec fn rat_new(num: int, den: int) -> Rat
    recommends
        den != 0,
{
    if den < 0 {
        rat_norm(Rat { n: -num, d: -den })
    } else {
        rat_norm(Rat { n: num, d: den })
    }
}

/// The smaller of two values (the right one only when strictly smaller).
pub open spec fn rat_min(a: Rat, b: Rat) -> Rat {
    if rat_lt(b, a) {
        b
    } else {
        a
    }
}

/// A product of values within the given magnitudes stays within their
/// product.
pub proof fn lemma_abs_mul_le(a: int, b: int, ma: int, mb: int)
    by (nonlinear_arith)
    requires
        -ma <= a <= ma,
        -mb <= b <= mb,
    ensures
        -(ma * mb) <= a * b <= ma * mb,
{
}

/// A product of positive values is positive.
pub proof fn lemma_pos_mul(a: int, b: int)
    by (nonlinear_arith)
    requires
        0 < a,
        0 < b,
    ensures
        0 < a * b,
{
}

impl core::ops::Add for Q {
    type Output = Q;

    /// Exact rational addition, normalized into the bounded representation.
    fn add(self, rhs: Q) -> (r: Q)
        ensures
            r@ == rat_norm(rat_add(self@, rhs@)),
            rat_wf(r@),
    {
        proof {
            use_type_invariant(&self);
            use_type_invariant(&rhs);
        }
        if self.d == rhs.d {
            Q::norm(self.n + rhs.n, self.d)
        } else {
            proof {
                lemma_abs_mul_le(self.n as int, rhs.d as int, NUM_CAP as int, DEN_CAP as int);
                lemma_abs_mul_le(rhs.n as int, self.d as int, NUM_CAP as int, DEN_CAP as int);
                lemma_pos_mul(self.d as int, rhs.d as int);
                lemma_abs_mul_le(self.d as int, rhs.d as int, DEN_CAP as int, DEN_CAP as int);
            }
            Q::norm(self.n * rhs.d + rhs.n * self.d, self.d * rhs.d)
        }
    }
}

impl vstd::std_specs::ops::AddSpecImpl for Q {
    open spec fn obeys_add_spec() -> bool {
        false
    }

    open spec fn add_req(self, rhs: Q) -> bool {
        true
    }

    open spec fn add_spec(self, rhs: Q) -> Q {
        arbitrary()
    }
}

impl core::ops::Sub for Q {
    type Output = Q;

    /// Exact rational subtraction, normalized into the bounded representation.
    fn sub(self, rhs: Q) -> (r: Q)
        ensures
            r@ == rat_norm(rat_sub(self@, rhs@)),
            rat_wf(r@),
    {
        proof {
            use_type_invariant(&self);
            use_type_invariant(&rhs);
        }
        if self.d == rhs.d {
            Q::norm(self.n - rhs.n, self.d)
        } else {
            proof {
                lemma_abs_mul_le(self.n as int, rhs.d as int, NUM_CAP as int, DEN_CAP as int);
                lemma_abs_mul_le(rhs.n as int, self.d as int, NUM_CAP as int, DEN_CAP as int);
                lemma_pos_mul(self.d as int, rhs.d as int);
                lemma_abs_mul_le(self.d as int, rhs.d as int, DEN_CAP as int, DEN_CAP as int);
            }
            Q::norm(self.n * rhs.d - rhs.n * self.d, self.d * rhs.d)
        }
    }
}

impl vstd::std_specs::ops::SubSpecImpl for Q {
    open spec fn obeys_sub_spec() -> bool {
        false
    }

    open spec fn sub_req(self, rhs: Q) -> bool {
        true
    }

    open spec fn sub_spec(self, rhs: Q) -> Q {
        arbitrary()
    }
}

impl core::ops::Mul for Q {
    type Output = Q;

    /// Exact rational multiplication, normalized into the bounded
    /// representation.
    fn mul(self, rhs: Q) -> (r: Q)
        ensures
            r@ == rat_norm(rat_mul(self@, rhs@)),
            rat_wf(r@),
    {
        proof {
            use_type_invariant(&self);
            use_type_invariant(&rhs);
            lemma_abs_mul_le(self.n as int, rhs.n as int, NUM_CAP as int, NUM_CAP as int);
            lemma_pos_mul(self.d as int, rhs.d as int);
            lemma_abs_mul_le(self.d as int, rhs.d as int, DEN_CAP as int, DEN_CAP as int);
        }
        Q::norm(self.n * rhs.n, self.d * rhs.d)
    }
}

impl vstd::std_specs::ops::MulSpecImpl for Q {
    open spec fn obeys_mul_spec() -> bool {
        false
    }

    open spec fn mul_req(self, rhs: Q) -> bool {
        true
    }

    open spec fn mul_spec(self, rhs: Q) -> Q {
        arbitrary()
    }
}

impl core::ops::Div for Q {
    type Output = Q;

    /// Exact rational division, normalized into the bounded representation;
    /// dividing by zero saturates.
    fn div(self, rhs: Q) -> (r: Q)
        ensures
            r@ == rat_norm(rat_div(self@, rhs@)),
            rat_wf(r@),
    {
        proof {
            use_type_invariant(&self);
            use_type_invariant(&rhs);
            lemma_abs_mul_le(self.n as int, rhs.d as int, NUM_CAP as int, DEN_CAP as int);
            lemma_abs_mul_le(self.d as int, rhs.n as int, DEN_CAP as int, NUM_CAP as int);
        }
        if rhs.n == 0 {
            Q { n: if self.n < 0 { -NUM_CAP } else { NUM_CAP }, d: GRID }
        } else if rhs.n > 0 {
            proof {
                lemma_pos_mul(self.d as int, rhs.n as int);
            }
            Q::norm(self.n * rhs.d, self.d * rhs.n)
        } else {
            proof {
                lemma_pos_mul(self.d as int, -(rhs.n as int));
                lemma_abs_mul_le(-(self.n as int), rhs.d as int, NUM_CAP as int, DEN_CAP as int);
                lemma_abs_mul_le(self.d as int, -(rhs.n as int), DEN_CAP as int, NUM_CAP as int);
            }
            Q::norm((-self.n) * rhs.d, self.d * (-rhs.n))
        }
    }
}

impl vstd::std_specs::ops::DivSpecImpl for Q {
    open spec fn obeys_div_spec() -> bool {
        false
    }

    open spec fn div_req(self, rhs: Q) -> bool {
        true
    }

    open spec fn div_spec(self, rhs: Q) -> Q {
        arbitrary()
    }
}

impl core::ops::Neg for Q {
    type Output = Q;

    /// Exact rational negation; never needs normalization.
    fn neg(self) -> (r: Q)
        ensures
            r@ == rat_neg(self@),
            rat_wf(r@),
    {
        proof {
            use_type_invariant(&self);
        }
        Q { n: -self.n, d: self.d }
    }
}

impl vstd::std_specs::ops::NegSpecImpl for Q {
    open spec fn obeys_neg_spec() -> bool {
        false
    }

    open spec fn neg_req(self) -> bool {
        true
    }

    open spec fn neg_spec(self) -> Q {
        arbitrary()
    }
}

impl PartialEq for Q {
    /// Equality of the rational values, regardless of representation.
    fn eq(&self, other: &Q) -> (r: bool) {
        proof {
            use_type_invariant(self);
            use_type_invariant(other);
            lemma_abs_mul_le(self.n as int, other.d as int, NUM_CAP as int, DEN_CAP as int);
            lemma_abs_mul_le(other.n as int, self.d as int, NUM_CAP as int, DEN_CAP as int);
        }
        self.n * other.d == other.n * self.d
    }
}

impl vstd::std_specs::cmp::PartialEqSpecImpl for Q {
    open spec fn obeys_eq_spec() -> bool {
        true
    }

    open spec fn eq_spec(&self, other: &Q) -> bool {
        rat_eq(self@, other@)
    }
}

impl Q {
    /// `self < other` as rational values.
    pub fn lt(&self, other: &Q) -> (r: bool)
        ensures
            r == rat_lt(self@, other@),
    {
        proof {
            use_type_invariant(self);
            use_type_invariant(other);
            lemma_abs_mul_le(self.n as int, other.d as int, NUM_CAP as int, DEN_CAP as int);
            lemma_abs_mul_le(other.n as int, self.d as int, NUM_CAP as int, DEN_CAP as int);
        }
        self.n * other.d < other.n * self.d
    }

    /// `self <= other` as rational values.
    pub fn le(&self, other: &Q) -> (r: bool)
        ensures
            r == rat_le(self@, other@),
    {
        proof {
            use_type_invariant(self);
            use_type_invariant(other);
            lemma_abs_mul_le(self.n as int, other.d as int, NUM_CAP as int, DEN_CAP as int);
            lemma_abs_mul_le(other.n as int, self.d as int, NUM_CAP as int, DEN_CAP as int);
        }
        self.n * other.d <= other.n * self.d
    }

    /// `self > other` as rational values.
    pub fn gt(&self, other: &Q) -> (r: bool)
        ensures
            r == rat_lt(other@, self@),
    {
        other.lt(self)
    }

    /// `self >= other` as rational values.
    pub fn ge(&self, other: &Q) -> (r: bool)
        ensures
            r == rat_le(other@, self@),
    {
        other.le(self)
    }

    /// The negation, as a method (the unary operator in prose).
    pub fn negate(self) -> (r: Q)
        ensures
            r@ == rat_neg(self@),
            rat_wf(r@),
    {
        proof {
            use_type_invariant(&self);
        }
        Q { n: -self.n, d: self.d }
    }

    /// The absolute value.
    pub fn abs(self) -> (r: Q)
        ensures
            r@ == rat_abs(self@),
            rat_wf(r@),
    {
        proof {
            use_type_invariant(&self);
        }
        if self.n < 0 {
            Q { n: -self.n, d: self.d }
        } else {
            self
        }
    }

    /// The smaller of `self` and `other`.
    pub fn min(self, other: Q) -> (r: Q)
        ensures
            r@ == rat_min(self@, other@),
    {
        if other.lt(&self) {
            other
        } else {
            self
        }
    }

    /// The square root, rounded down onto the grid; non-positive inputs give
    /// zero.
    pub fn sqrt(self) -> (r: Q)
        ensures
            r@ == rat_sqrt(self@),
            rat_wf(r@),
    {
        proof {
            use_type_invariant(&self);
        }
        if self.n <= 0 {
            Q::zero()
        } else {
            proof {
                lemma_abs_mul_le(self.n as int, GRID as int, NUM_CAP as int, GRID as int);
                lemma_abs_mul_le(
                    (self.n * GRID) as int,
                    GRID as int,
                    (NUM_CAP * GRID) as int,
                    GRID as int,
                );
            }
            let scaled: i128 = self.n * GRID * GRID;
            let m: i128 = scaled / self.d;
            proof {
                vstd::arithmetic::div_mod::lemma_div_pos_is_pos(scaled as int, self.d as int);
                assert(m <= scaled) by (nonlinear_arith)
                    requires
                        0 < self.d as int,
                        0 <= scaled,
                        m as int == scaled as int / self.d as int,
                ;
            }
            let s: i128 = isqrt(m);
            proof {
                lemma_isqrt_bounds(m as int);
                assert(s <= 0x8000_0000_0000_0000) by (nonlinear_arith)
                    requires
                        0 <= s,
                        s as int * s as int <= m as int,
                        m <= 0x4000_0000_0000_0000_0000_0000_0000_0000,
                ;
            }
            Q::norm(s, GRID)
        }
    }
}

/// The model of [`Q::sqrt`]: the integer square root of the input scaled
/// onto the grid.
pub open spec fn rat_sqrt(a: Rat) -> Rat {
    if a.n <= 0 {
        rat_zero()
    } else {
        rat_norm(Rat { n: isqrt_spec(a.n * (GRID as int) * (GRID as int) / a.d), d: GRID as int })
    }
}

/// The integer square root, defined by counting up.
pub open spec fn isqrt_spec(m: int) -> int
    decreases m,
{
    if m <= 0 {
        0
    } else {
        let p = isqrt_spec(m - 1);
        if (p + 1) * (p + 1) <= m {
            p + 1
        } else {
            p
        }
    }
}

/// The integer square root is the largest integer whose square is at most
/// the input.
pub proof fn lemma_isqrt_bounds(m: int)
    requires
        0 <= m,
    ensures
        0 <= isqrt_spec(m),
        isqrt_spec(m) * isqrt_spec(m) <= m,
        m < (isqrt_spec(m) + 1) * (isqrt_spec(m) + 1),
    decreases m,
{
    if m == 0 {
    } else {
        lemma_isqrt_bounds(m - 1);
        let p = isqrt_spec(m - 1);
        if (p + 1) * (p + 1) <= m {
            assert(m < (p + 2) * (p + 2)) by (nonlinear_arith)
                requires
                    0 <= p,
                    m - 1 < (p + 1) * (p + 1),
                    (p + 1) * (p + 1) <= m,
            ;
        }
    }
}

/// Binary search for the integer square root.
fn isqrt(m: i128) -> (r: i128)
    requires
        0 <= m <= 0x4000_0000_0000_0000_0000_0000_0000_0000,  // 2^126
    ensures
        r == isqrt_spec(m as int),
{
    let mut lo: i128 = 0;
    let mut hi: i128 = 0x8000_0000_0000_0001;  // 2^63 + 1
    proof {
        assert((m as int) < (hi as int) * (hi as int)) by (nonlinear_arith)
            requires
                m <= 0x4000_0000_0000_0000_0000_0000_0000_0000,
                hi == 0x8000_0000_0000_0001,
        ;
    }
    while lo + 1 < hi
        invariant
            0 <= lo < hi <= 0x8000_0000_0000_0001,
            (lo as int) * (lo as int) <= m as int,
            (m as int) < (hi as int) * (hi as int),
            0 <= m <= 0x4000_0000_0000_0000_0000_0000_0000_0000,
        decreases hi - lo,
    {
        let mid: i128 = lo + (hi - lo) / 2;
        proof {
            assert((mid as int) * (mid as int) <= 0x4000_0000_0000_0001_0000_0000_0000_0001)
                by (nonlinear_arith)
                requires
                    0 <= mid <= 0x8000_0000_0000_0001,
            ;
        }
        let sq: i128 = mid * mid;
        if sq <= m {
            lo = mid;
        } else {
            hi = mid;
        }
    }
    proof {
        lemma_isqrt_bounds(m as int);
        assert(lo as int == isqrt_spec(m as int)) by (nonlinear_arith)
            requires
                0 <= lo as int,
                (lo as int) * (lo as int) <= m as int,
                (m as int) < (lo as int + 1) * (lo as int + 1),
                0 <= isqrt_spec(m as int),
                isqrt_spec(m as int) * isqrt_spec(m as int) <= m as int,
                (m as int) < (isqrt_spec(m as int) + 1) * (isqrt_spec(m as int) + 1),
        ;
    }
    lo
}

} // verus!
