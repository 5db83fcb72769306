//! Laws of the rendering kernel, stated and proved against the same model
//! functions that the executable contracts use.

use vstd::prelude::*;

use crate::cvec::{v_div, v_dot, v_dot_prefix, v_reflect, v_scale, v_sub, v_unit, v_zero};
use crate::hittable::{set_face_mdl, HitMdl};
use crate::ray::RayMdl;
use crate::scalar::{
    isqrt_spec, lemma_abs_mul_le, lemma_isqrt_bounds, lemma_pos_mul, rat_add, rat_div, rat_eq,
    rat_le, rat_lt, rat_mul, rat_neg, rat_norm, rat_one, rat_sqrt, rat_sub, rat_wf, rat_zero, Rat,
    DEN_CAP, GRID, NUM_CAP,
};
use crate::hittable::Hittable;
use crate::tracer::ray_color_mdl;

verus! {

/// The square root brackets its argument: for a positive in-bounds value
/// `a`, the result `r` of `sqrt` satisfies `r >= 0`, `r * r <= a` and
/// `a < (r + 1/GRID) * (r + 1/GRID)`; together with the unit vector being
/// the vector divided by this root, this is how the normalized length
/// approximates one.
pub proof fn lemma_sqrt_brackets(a: Rat)
    requires
        rat_wf(a),
        0 < a.n,
        a.n <= 0x1000_0000_0000_0000 * a.d,  // value at most 2^60, where the root cannot saturate
    ensures
        rat_le(rat_zero(), rat_sqrt(a)),
        rat_le(rat_mul(rat_sqrt(a), rat_sqrt(a)), a),
        rat_lt(a, rat_mul(q_bump(rat_sqrt(a)), q_bump(rat_sqrt(a)))),
{
    let g = GRID as int;
    let m = a.n * g * g / a.d;
    let s = isqrt_spec(m);
    assert(0 <= a.n * g * g) by (nonlinear_arith)
        requires
            0 < a.n,
            g == GRID as int,
    ;
    assert(m <= a.n * g * g) by (nonlinear_arith)
        requires
            0 < a.d,
            0 <= a.n * g * g,
            m == a.n * g * g / a.d,
    ;
    assert(a.n * g * g <= NUM_CAP as int * g * g) by (nonlinear_arith)
        requires
            a.n <= NUM_CAP as int,
            g == GRID as int,
    ;
    vstd::arithmetic::div_mod::lemma_div_pos_is_pos(a.n * g * g, a.d);
    lemma_isqrt_bounds(m);
    assert(s <= 0x8000_0000_0000_0000) by (nonlinear_arith)
        requires
            0 <= s,
            s * s <= m,
            m <= 0x4000_0000_0000_0000_0000_0000_0000_0000,
    ;
    assert(m <= 0x1000_0000_0000_0000 * g * g) by (nonlinear_arith)
        requires
            0 < a.d,
            m == a.n * g * g / a.d,
            0 <= a.n * g * g,
            a.n <= 0x1000_0000_0000_0000 * a.d,
    ;
    assert(s <= NUM_CAP as int) by (nonlinear_arith)
        requires
            0 <= s,
            s * s <= m,
            m <= 0x1000_0000_0000_0000 * g * g,
            g == 0x1_0000_0000,
            NUM_CAP == 0x4000_0000_0000_0000,
    ;
    let raw = Rat { n: s, d: g };
    {
        assert(rat_wf(raw));
        assert(rat_sqrt(a) == raw);
        // r * r <= a:  (s * s) * a.d <= a.n * (g * g)
        assert(s * s * a.d <= a.n * (g * g)) by (nonlinear_arith)
            requires
                0 < a.d,
                s * s <= m,
                m == a.n * g * g / a.d,
                0 <= a.n * g * g,
        ;
        assert(rat_le(rat_mul(raw, raw), a)) by (nonlinear_arith)
            requires
                s * s * a.d <= a.n * (g * g),
                rat_mul(raw, raw) == (Rat { n: s * s, d: g * g }),
        ;
        // a < (r + 1/g)^2: a.n * g * g < (s + 1) * (s + 1) * a.d ... from m's div remainder
        assert(a.n * g * g < (m + 1) * a.d) by (nonlinear_arith)
            requires
                0 < a.d,
                m == a.n * g * g / a.d,
                0 <= a.n * g * g,
        ;
        assert(a.n * g * g < (s + 1) * (s + 1) * a.d) by (nonlinear_arith)
            requires
                a.n * g * g < (m + 1) * a.d,
                m < (s + 1) * (s + 1),
                0 < a.d,
        ;
        assert(q_bump(raw) == (Rat { n: s + 1, d: g })) by {
            assert(raw.d == g);
        }
        assert(rat_lt(a, rat_mul(q_bump(raw), q_bump(raw)))) by (nonlinear_arith)
            requires
                a.n * g * g < (s + 1) * (s + 1) * a.d,
                rat_mul(q_bump(raw), q_bump(raw)) == (Rat { n: (s + 1) * (s + 1), d: g * g }),
        ;
        assert(rat_le(rat_zero(), raw)) by (nonlinear_arith)
            requires
                0 <= s,
                0 < g,
                raw == (Rat { n: s, d: g }),
        ;
    }
}

/// One grid step above a value: `x + 1/GRID` for a value already on a
/// denominator dividing the grid, written directly on the stored fraction.
pub open spec fn q_bump(x: Rat) -> Rat {
    Rat { n: x.n + 1, d: x.d }
}

/// The unit vector is, by definition of the model, the vector divided by
/// its own length.
pub proof fn lemma_unit_vector_is_div_by_length(a: Seq<Rat>)
    ensures
        v_unit(a) == v_div(a, rat_sqrt(v_dot(a, a))),
{
}

/// The front face flag is set exactly when the geometric outward normal
/// already opposes the incoming ray's direction.
pub proof fn lemma_front_face_iff_opposes(h: HitMdl, r: RayMdl, outward: Seq<Rat>)
    ensures
        set_face_mdl(h, r, outward).front_face == rat_lt(v_dot(r.dir, outward), rat_zero()),
{
}

/// A depth-zero radiance estimate is exactly black and draws nothing, for
/// every ray, scene and generator state.
pub proof fn lemma_depth_zero_is_black<H: Hittable>(r: RayMdl, world: &H, s: u64)
    ensures
        ray_color_mdl(r, world, 0, s).0 == v_zero(3),
        ray_color_mdl(r, world, 0, s).1 == s,
{
}

/// The estimator is a pure function of the ray, the scene, the depth and
/// the generator seed: two runs from equal seeds agree exactly.
pub proof fn lemma_estimator_deterministic<H: Hittable>(
    r: RayMdl,
    world: &H,
    depth: nat,
    s1: u64,
    s2: u64,
)
    requires
        s1 == s2,
    ensures
        ray_color_mdl(r, world, depth, s1) == ray_color_mdl(r, world, depth, s2),
{
}

/// The dot product of three-component vectors whose components share small
/// denominators is the exact textbook fraction: with the given bounds no
/// step of the fold rounds.
pub proof fn lemma_dot3_exact(x: Seq<Rat>, y: Seq<Rat>, bx: int, by: int)
    requires
        x.len() == 3,
        y.len() == 3,
        x[1].d == x[0].d,
        x[2].d == x[0].d,
        y[1].d == y[0].d,
        y[2].d == y[0].d,
        0 < x[0].d,
        0 < y[0].d,
        x[0].d * y[0].d <= DEN_CAP as int,
        0 <= bx,
        0 <= by,
        -bx <= x[0].n <= bx,
        -bx <= x[1].n <= bx,
        -bx <= x[2].n <= bx,
        -by <= y[0].n <= by,
        -by <= y[1].n <= by,
        -by <= y[2].n <= by,
        3 * (bx * by) <= NUM_CAP as int,
    ensures
        v_dot(x, y) == (Rat {
            n: x[0].n * y[0].n + x[1].n * y[1].n + x[2].n * y[2].n,
            d: x[0].d * y[0].d,
        }),
{
    let dd = x[0].d * y[0].d;
    lemma_pos_mul(x[0].d, y[0].d);
    lemma_abs_mul_le(x[0].n, y[0].n, bx, by);
    lemma_abs_mul_le(x[1].n, y[1].n, bx, by);
    lemma_abs_mul_le(x[2].n, y[2].n, bx, by);
    assert(0 <= bx * by && bx * by <= NUM_CAP as int) by (nonlinear_arith)
        requires
            0 <= bx,
            0 <= by,
            3 * (bx * by) <= NUM_CAP as int,
    ;
    let m0 = rat_mul(x[0], y[0]);
    let m1 = rat_mul(x[1], y[1]);
    let m2 = rat_mul(x[2], y[2]);
    assert(m0.d == dd && m1.d == dd && m2.d == dd);
    assert(rat_wf(m0) && rat_wf(m1) && rat_wf(m2));
    assert(v_dot_prefix(x, y, 0) == rat_zero());
    let p1 = v_dot_prefix(x, y, 1);
    assert(p1 == (Rat { n: x[0].n * y[0].n, d: dd }));
    let p2 = v_dot_prefix(x, y, 2);
    assert(p2 == (Rat { n: x[0].n * y[0].n + x[1].n * y[1].n, d: dd }));
    let p3 = v_dot_prefix(x, y, 3);
    assert(p3 == (Rat { n: x[0].n * y[0].n + x[1].n * y[1].n + x[2].n * y[2].n, d: dd }));
}

/// Reflection preserves the magnitude of the incoming direction's normal
/// component and flips its sign: `dot(reflect(v, n), n) = -dot(v, n)` for a
/// unit-length normal `n`.  Stated for components over shared small
/// denominators, where every step of the model is exact; with numerators or
/// denominators near the representation caps the operations round and the
/// identity holds only approximately.

/// The algebra of the reflection identity when the normal's components are
/// whole numbers (`dn == 1`).
proof fn lemma_reflect_alg_whole(
    p0: int, p1: int, p2: int,
    a0: int, a1: int, a2: int,
    dv: int, dn: int, dvn: int, ss: int,
    r0n: int, r1n: int, r2n: int,
    fin: Rat, big_d: Rat,
)
    requires
        0 < dv,
        dn == 1,
        dvn == p0 * a0 + p1 * a1 + p2 * a2,
        ss == a0 * a0 + a1 * a1 + a2 * a2,
        ss == dn * dn,
        r0n == p0 - (a0 * 2) * dvn,
        r1n == p1 - (a1 * 2) * dvn,
        r2n == p2 - (a2 * 2) * dvn,
        fin == (Rat { n: r0n * a0 + r1n * a1 + r2n * a2, d: dv * dn }),
        big_d == (Rat { n: dvn, d: dv * dn }),
    ensures
        rat_eq(fin, rat_neg(big_d)),
{
    assert(r0n * a0 == (p0 * a0) - ((a0 * a0) * 2) * dvn) by (nonlinear_arith)
        requires
            r0n == p0 - (a0 * 2) * dvn,
    ;
    assert(r1n * a1 == (p1 * a1) - ((a1 * a1) * 2) * dvn) by (nonlinear_arith)
        requires
            r1n == p1 - (a1 * 2) * dvn,
    ;
    assert(r2n * a2 == (p2 * a2) - ((a2 * a2) * 2) * dvn) by (nonlinear_arith)
        requires
            r2n == p2 - (a2 * 2) * dvn,
    ;
    assert(fin.n == dvn - (ss * 2) * dvn) by (nonlinear_arith)
        requires
            fin.n == r0n * a0 + r1n * a1 + r2n * a2,
            r0n * a0 == (p0 * a0) - ((a0 * a0) * 2) * dvn,
            r1n * a1 == (p1 * a1) - ((a1 * a1) * 2) * dvn,
            r2n * a2 == (p2 * a2) - ((a2 * a2) * 2) * dvn,
            dvn == p0 * a0 + p1 * a1 + p2 * a2,
            ss == a0 * a0 + a1 * a1 + a2 * a2,
    ;
    assert(fin.n == -dvn) by (nonlinear_arith)
        requires
            fin.n == dvn - (ss * 2) * dvn,
            ss == 1,
    ;
    assert(rat_eq(fin, rat_neg(big_d))) by (nonlinear_arith)
        requires
            fin.n == -dvn,
            fin.d == big_d.d,
            big_d.n == dvn,
    ;
}

/// The algebra of the reflection identity over a genuine shared fraction
/// denominator (`dn > 1`).
proof fn lemma_reflect_alg_frac(
    p0: int, p1: int, p2: int,
    a0: int, a1: int, a2: int,
    dv: int, dn: int, dvn: int, ss: int, scd: int, rd: int,
    r0n: int, r1n: int, r2n: int,
    fin: Rat, big_d: Rat,
)
    requires
        0 < dv,
        0 < dn,
        dvn == p0 * a0 + p1 * a1 + p2 * a2,
        ss == a0 * a0 + a1 * a1 + a2 * a2,
        ss == dn * dn,
        scd == (dn * 1) * (dv * dn),
        rd == dv * scd,
        r0n == p0 * scd - ((a0 * 2) * dvn) * dv,
        r1n == p1 * scd - ((a1 * 2) * dvn) * dv,
        r2n == p2 * scd - ((a2 * 2) * dvn) * dv,
        fin == (Rat { n: r0n * a0 + r1n * a1 + r2n * a2, d: rd * dn }),
        big_d == (Rat { n: dvn, d: dv * dn }),
    ensures
        rat_eq(fin, rat_neg(big_d)),
{
    assert(r0n * a0 == ((p0 * a0) * scd) - (((a0 * a0) * 2) * dvn) * dv) by (nonlinear_arith)
        requires
            r0n == p0 * scd - ((a0 * 2) * dvn) * dv,
    ;
    assert(r1n * a1 == ((p1 * a1) * scd) - (((a1 * a1) * 2) * dvn) * dv) by (nonlinear_arith)
        requires
            r1n == p1 * scd - ((a1 * 2) * dvn) * dv,
    ;
    assert(r2n * a2 == ((p2 * a2) * scd) - (((a2 * a2) * 2) * dvn) * dv) by (nonlinear_arith)
        requires
            r2n == p2 * scd - ((a2 * 2) * dvn) * dv,
    ;
    assert(fin.n == ((p0 * a0) * scd + (p1 * a1) * scd + (p2 * a2) * scd) - ((((a0 * a0) * 2)
        * dvn) * dv + (((a1 * a1) * 2) * dvn) * dv + (((a2 * a2) * 2) * dvn) * dv));
    assert((p0 * a0) * scd + (p1 * a1) * scd + (p2 * a2) * scd == dvn * scd) by (nonlinear_arith)
        requires
            dvn == p0 * a0 + p1 * a1 + p2 * a2,
    ;
    assert((((a0 * a0) * 2) * dvn) * dv + (((a1 * a1) * 2) * dvn) * dv + (((a2 * a2) * 2) * dvn)
        * dv == ((ss * 2) * dvn) * dv) by (nonlinear_arith)
        requires
            ss == a0 * a0 + a1 * a1 + a2 * a2,
    ;
    assert(fin.n == dvn * scd - ((ss * 2) * dvn) * dv);
    assert(rat_eq(fin, rat_neg(big_d))) by (nonlinear_arith)
        requires
            fin.n == dvn * scd - ((ss * 2) * dvn) * dv,
            fin.d == rd * dn,
            big_d == (Rat { n: dvn, d: dv * dn }),
            scd == (dn * 1) * (dv * dn),
            rd == dv * scd,
            ss == dn * dn,
    ;
}

#[verifier::rlimit(100)]
pub proof fn lemma_reflect_flips_normal_component(v: Seq<Rat>, n: Seq<Rat>)
    requires
        v.len() == 3,
        n.len() == 3,
        v[1].d == v[0].d,
        v[2].d == v[0].d,
        n[1].d == n[0].d,
        n[2].d == n[0].d,
        0 < v[0].d <= 64,
        0 < n[0].d <= 64,
        -0x10_0000 <= v[0].n <= 0x10_0000,
        -0x10_0000 <= v[1].n <= 0x10_0000,
        -0x10_0000 <= v[2].n <= 0x10_0000,
        -64 <= n[0].n <= 64,
        -64 <= n[1].n <= 64,
        -64 <= n[2].n <= 64,
        rat_eq(v_dot(n, n), rat_one()),
    ensures
        rat_eq(v_dot(v_reflect(v, n), n), rat_neg(v_dot(v, n))),
{
    let dv = v[0].d;
    let dn = n[0].d;
    let p0 = v[0].n;
    let p1 = v[1].n;
    let p2 = v[2].n;
    let a0 = n[0].n;
    let a1 = n[1].n;
    let a2 = n[2].n;
    assert(dn * dn <= DEN_CAP as int && dv * dn <= DEN_CAP as int) by (nonlinear_arith)
        requires
            0 < dv <= 64,
            0 < dn <= 64,
            DEN_CAP == 0x1_0000_0000,
    ;
    lemma_dot3_exact(n, n, 64, 64);
    let ss = a0 * a0 + a1 * a1 + a2 * a2;
    assert(ss == dn * dn) by {
        assert(rat_eq(Rat { n: ss, d: dn * dn }, rat_one()));
    }
    lemma_dot3_exact(v, n, 0x10_0000, 64);
    let dvn = p0 * a0 + p1 * a1 + p2 * a2;
    let big_d = Rat { n: dvn, d: dv * dn };
    assert(v_dot(v, n) == big_d);
    lemma_abs_mul_le(p0, a0, 0x10_0000, 64);
    lemma_abs_mul_le(p1, a1, 0x10_0000, 64);
    lemma_abs_mul_le(p2, a2, 0x10_0000, 64);
    assert(-0x1800_0000 <= dvn <= 0x1800_0000);
    // n scaled by two, then by the dot product.
    let sn = v_scale(n, Rat { n: 2, d: 1 });
    assert(sn.len() == 3);
    assert(sn[0] == rat_norm(rat_mul(n[0], Rat { n: 2, d: 1 })) && sn[1] == rat_norm(
        rat_mul(n[1], Rat { n: 2, d: 1 }),
    ) && sn[2] == rat_norm(rat_mul(n[2], Rat { n: 2, d: 1 })));
    assert(rat_wf(Rat { n: a0 * 2, d: dn * 1 }) && rat_wf(Rat { n: a1 * 2, d: dn * 1 })
        && rat_wf(Rat { n: a2 * 2, d: dn * 1 }));
    assert(sn[0] == (Rat { n: a0 * 2, d: dn * 1 }) && sn[1] == (Rat { n: a1 * 2, d: dn * 1 })
        && sn[2] == (Rat { n: a2 * 2, d: dn * 1 }));
    let sc = v_scale(sn, big_d);
    assert(sc.len() == 3);
    let scd = (dn * 1) * (dv * dn);
    assert(0 < scd <= 0x4_0000) by (nonlinear_arith)
        requires
            0 < dv <= 64,
            0 < dn <= 64,
            scd == (dn * 1) * (dv * dn),
    ;
    lemma_abs_mul_le(a0 * 2, dvn, 128, 0x1800_0000);
    lemma_abs_mul_le(a1 * 2, dvn, 128, 0x1800_0000);
    lemma_abs_mul_le(a2 * 2, dvn, 128, 0x1800_0000);
    assert(rat_wf(Rat { n: (a0 * 2) * dvn, d: scd }) && rat_wf(Rat { n: (a1 * 2) * dvn, d: scd })
        && rat_wf(Rat { n: (a2 * 2) * dvn, d: scd }));
    assert(sc[0] == (Rat { n: (a0 * 2) * dvn, d: scd }) && sc[1] == (Rat {
        n: (a1 * 2) * dvn,
        d: scd,
    }) && sc[2] == (Rat { n: (a2 * 2) * dvn, d: scd }));
    // The reflected vector, exact in either denominator shape.
    let r = v_reflect(v, n);
    assert(r == v_sub(v, sc));
    assert(r.len() == 3);
    assert(r[0] == rat_norm(rat_sub(v[0], sc[0])) && r[1] == rat_norm(rat_sub(v[1], sc[1]))
        && r[2] == rat_norm(rat_sub(v[2], sc[2])));
    if dn == 1 {
        assert(scd == dv) by (nonlinear_arith)
            requires
                dn == 1,
                scd == (dn * 1) * (dv * dn),
        ;
        let r0n = p0 - (a0 * 2) * dvn;
        let r1n = p1 - (a1 * 2) * dvn;
        let r2n = p2 - (a2 * 2) * dvn;
        assert(rat_wf(Rat { n: r0n, d: dv }) && rat_wf(Rat { n: r1n, d: dv }) && rat_wf(
            Rat { n: r2n, d: dv },
        ));
        assert(r[0] == (Rat { n: r0n, d: dv }) && r[1] == (Rat { n: r1n, d: dv }) && r[2] == (
        Rat { n: r2n, d: dv }));
        assert(r[1].d == r[0].d && r[2].d == r[0].d);
        lemma_dot3_exact(r, n, 0x10_0000_0000, 64);
        let fin = Rat { n: r0n * a0 + r1n * a1 + r2n * a2, d: dv * dn };
        assert(v_dot(r, n) == fin);
        lemma_reflect_alg_whole(
            p0, p1, p2, a0, a1, a2, dv, dn, dvn, ss, r0n, r1n, r2n, fin, big_d,
        );
    } else {
        assert(dv != scd) by (nonlinear_arith)
            requires
                2 <= dn <= 64,
                0 < dv,
                scd == (dn * 1) * (dv * dn),
        ;
        let rd = dv * scd;
        assert(0 < rd <= DEN_CAP as int && rd * dn <= DEN_CAP as int) by (nonlinear_arith)
            requires
                0 < dv <= 64,
                0 < dn <= 64,
                scd == (dn * 1) * (dv * dn),
                rd == dv * scd,
                DEN_CAP == 0x1_0000_0000,
        ;
        let r0n = p0 * scd - ((a0 * 2) * dvn) * dv;
        let r1n = p1 * scd - ((a1 * 2) * dvn) * dv;
        let r2n = p2 * scd - ((a2 * 2) * dvn) * dv;
        lemma_abs_mul_le(p0, scd, 0x10_0000, 0x4_0000);
        lemma_abs_mul_le(p1, scd, 0x10_0000, 0x4_0000);
        lemma_abs_mul_le(p2, scd, 0x10_0000, 0x4_0000);
        lemma_abs_mul_le((a0 * 2) * dvn, dv, 0xC0_0000_0000, 64);
        lemma_abs_mul_le((a1 * 2) * dvn, dv, 0xC0_0000_0000, 64);
        lemma_abs_mul_le((a2 * 2) * dvn, dv, 0xC0_0000_0000, 64);
        assert(rat_wf(Rat { n: r0n, d: rd }) && rat_wf(Rat { n: r1n, d: rd }) && rat_wf(
            Rat { n: r2n, d: rd },
        ));
        assert(r[0] == (Rat { n: r0n, d: rd }) && r[1] == (Rat { n: r1n, d: rd }) && r[2] == (
        Rat { n: r2n, d: rd }));
        assert(r[1].d == r[0].d && r[2].d == r[0].d);
        lemma_dot3_exact(r, n, 0x4000_0000_0000, 64);
        let fin = Rat { n: r0n * a0 + r1n * a1 + r2n * a2, d: rd * dn };
        assert(v_dot(r, n) == fin);
        lemma_reflect_alg_frac(
            p0, p1, p2, a0, a1, a2, dv, dn, dvn, ss, scd, rd, r0n, r1n, r2n, fin, big_d,
        );
    }
}

/// Averaging two identical in-bounds values gives the value back: summing
/// a pixel with itself and dividing by two is exact whenever doubling stays
/// in bounds (a pixel already at the numerator or denominator cap would be
/// rounded instead).
pub proof fn lemma_average_of_equal(x: Rat)
    requires
        rat_wf(x),
        2 * x.n <= NUM_CAP as int,
        -(NUM_CAP as int) <= 2 * x.n,
        2 * x.d <= DEN_CAP as int,
    ensures
        rat_eq(rat_norm(rat_div(rat_norm(rat_add(x, x)), Rat { n: 2, d: 1 })), x),
{
    let doubled = rat_add(x, x);
    assert(doubled == (Rat { n: 2 * x.n, d: x.d }));
    assert(rat_wf(doubled));
    let halved = rat_div(doubled, Rat { n: 2, d: 1 });
    assert(halved == (Rat { n: (2 * x.n) * 1, d: x.d * 2 }));
    assert(rat_wf(halved));
    assert(rat_eq(halved, x)) by (nonlinear_arith)
        requires
            halved == (Rat { n: (2 * x.n) * 1, d: x.d * 2 }),
    ;
}

} // verus!
