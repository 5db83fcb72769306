//! The radiance estimator and the per-pixel sampler.
//!
//! `ray_color` walks a ray through the scene, bouncing off materials and
//! accumulating attenuation until the depth budget runs out or the ray
//! escapes to the sky; the sampler jitters several camera rays per pixel,
//! sums the estimates and tone-maps the result.

use vstd::prelude::*;

use crate::camera::{cam_ray_dir, Camera, CameraMdl};
use crate::cvec::{v_add, v_cmul, v_div, v_scale, v_unit, v_zero, Color, Vec3};
use crate::hittable::{HitRecord, Hittable};
use crate::material::scatter_mdl;
use crate::ray::{Ray, RayMdl};
use crate::rng::{rng_next, rng_unit, Prng};
use crate::rtweekend::{clamp, rat_clamp};
use crate::scalar::{
    rat_add, rat_div, rat_mul, rat_norm, rat_one, rat_sat, rat_sqrt, rat_sub, rat_zero, Q, Rat,
};

verus! {

/// The lower acceptance bound of every scene test: a shadow-acne epsilon
/// excluding self-intersections at the ray's own origin.
pub open spec fn acne_eps() -> Rat {
    Rat { n: 1, d: 1000 }
}

/// The sky background: a vertical gradient from white to sky blue over the
/// normalized direction's vertical component mapped from `[-1, 1]` to
/// `[0, 1]`.
pub open spec fn background_mdl(r: RayMdl) -> Seq<Rat> {
    let unit_direction = v_unit(r.dir);
    let t = rat_norm(rat_mul(Rat { n: 1, d: 2 }, rat_norm(rat_add(unit_direction[1], rat_one()))));
    v_add(
        v_scale(seq![rat_one(), rat_one(), rat_one()], rat_norm(rat_sub(rat_one(), t))),
        v_scale(seq![Rat { n: 1, d: 2 }, Rat { n: 7, d: 10 }, rat_one()], t),
    )
}

/// The recursive radiance estimate: black once the depth budget is spent;
/// otherwise the nearest hit's material scatters and tints the recursive
/// estimate, absorption gives black, and a ray that hits nothing (or a
/// surface without a material) falls through to the sky gradient.
pub open spec fn ray_color_mdl<H: Hittable>(r: RayMdl, world: &H, depth: nat, s: u64) -> (
    Seq<Rat>,
    u64,
)
    decreases depth,
{
    if depth == 0 {
        (v_zero(3), s)
    } else {
        match world.hit_mdl(r, acne_eps(), rat_sat(false)) {
            Some(rec) => match rec.mat {
                Some(m) => {
                    let out = scatter_mdl(m, r, rec, s);
                    if out.ok {
                        let rest = ray_color_mdl(out.scattered, world, (depth - 1) as nat, out.state);
                        (v_cmul(out.attenuation, rest.0), rest.1)
                    } else {
                        (v_zero(3), out.state)
                    }
                },
                None => (background_mdl(r), s),
            },
            None => (background_mdl(r), s),
        }
    }
}

/// The radiance carried back along a ray, estimated with `depth` remaining
/// bounces.  For scenes and rays whose values stay inside the scalar's
/// range, black, the background gradient and products of `[0, 1]`
/// attenuations keep every channel in `[0, 1]`; a direction with
/// saturation-scale components can drive the gradient outside that range,
/// which the exact model records faithfully.
#[verifier::rlimit(100)]
pub fn ray_color<H: Hittable>(r: &Ray, world: &H, depth: usize, rng: &mut Prng) -> (c: Color)
    ensures
        c@ == ray_color_mdl(r@, world, depth as nat, old(rng)@).0,
        final(rng)@ == ray_color_mdl(r@, world, depth as nat, old(rng)@).1,
    decreases depth,
{
    if depth == 0 {
        let black = Color::new(Q::zero(), Q::zero(), Q::zero());
        proof {
            assert(black@ =~= v_zero(3));
        }
        return black;
    }

    let mut rec = HitRecord::default();

    if world.hit(r, Q::new(1, 1000), Q::big(), &mut rec) {
        let z = Q::zero();
        let mut scattered = Ray::new(Vec3::new(z, z, z), Vec3::new(z, z, z));
        let mut attenuation = Color::new(z, z, z);

        if let Some(mat) = rec.mat {
            if mat.scatter(r, &rec, &mut attenuation, &mut scattered, rng) {
                return attenuation * ray_color(&scattered, world, depth - 1, rng);
            }
            let black = Color::new(Q::zero(), Q::zero(), Q::zero());
            proof {
                assert(black@ =~= v_zero(3));
            }
            return black;
        }
    }
    let unit_direction = r.direction().unit_vector();
    let t = Q::new(1, 2) * (unit_direction.y() + Q::one());
    let one = Q::one();
    let white = Color::new(one, one, one);
    let sky = Color::new(Q::new(1, 2), Q::new(7, 10), one);
    proof {
        assert(white@ =~= seq![rat_one(), rat_one(), rat_one()]);
        assert(sky@ =~= seq![Rat { n: 1, d: 2 }, Rat { n: 7, d: 10 }, rat_one()]);
    }
    white * (Q::one() - t) + sky * t
}

/// One tone-mapped channel: the summed value scaled to one sample, gamma
/// corrected with gamma two, clamped to `[0, 0.999]` and scaled to the
/// output range.
pub open spec fn fix_val_mdl(v: Rat, scale: Rat) -> Rat {
    let g = rat_sqrt(rat_norm(rat_mul(scale, v)));
    rat_norm(rat_mul(Rat { n: 256, d: 1 }, rat_clamp(g, rat_zero(), Rat { n: 999, d: 1000 })))
}

/// Tone-maps one summed channel value; `scale` is one over the sample
/// count.
pub fn fix_pixel_val(v: Q, scale: Q) -> (r: Q)
    ensures
        r@ == fix_val_mdl(v@, scale@),
{
    let g = (scale * v).sqrt();
    let c = clamp(g, Q::zero(), Q::new(999, 1000));
    Q::from_int(256) * c
}

/// One tone-mapped pixel, channel by channel.
pub open spec fn fix_pixel_mdl(p: Seq<Rat>, scale: Rat) -> Seq<Rat> {
    seq![
        fix_val_mdl(p[0], scale),
        fix_val_mdl(p[1], scale),
        fix_val_mdl(p[2], scale),
    ]
}

/// Tone-maps one summed pixel; `scale` is one over the sample count.
pub fn fix_pixel(p: Color, scale: Q) -> (r: Color)
    ensures
        r@ == fix_pixel_mdl(p@, scale@),
{
    let r0 = fix_pixel_val(p.x(), scale);
    let g = fix_pixel_val(p.y(), scale);
    let b = fix_pixel_val(p.z(), scale);
    let out = Color::new(r0, g, b);
    proof {
        assert(out@ =~= fix_pixel_mdl(p@, scale@));
    }
    out
}

/// One jittered image-plane coordinate: the pixel index plus a unit draw,
/// normalized by the image extent.
pub open spec fn coord_mdl(s: u64, o: int, l: int) -> Rat {
    rat_norm(rat_div(rat_norm(rat_add(Rat { n: o, d: 1 }, rng_unit(s))), Rat { n: l - 1, d: 1 }))
}

/// The jittered image-plane coordinate of index `o` along an extent of `l`
/// pixels; consumes one draw.
pub fn pixel_coord(rng: &mut Prng, o: usize, l: usize) -> (r: Q)
    requires
        o <= 0x4000_0000,
        1 <= l <= 0x4000_0000,
    ensures
        r@ == coord_mdl(old(rng)@, o as int, l as int),
        final(rng)@ == rng_next(old(rng)@),
{
    let oq = Q::from_int(o as i64);
    let lq = Q::from_int((l as i64) - 1);
    proof {
        assert(oq@ == (Rat { n: o as int, d: 1 }));
        assert(lq@ == (Rat { n: l as int - 1, d: 1 }));
    }
    let u = rng.next_unit();
    (oq + u) / lq
}

/// The summed radiance of one pixel over `samples` jittered camera rays:
/// per sample, the vertical then the horizontal coordinate is drawn, the
/// camera ray is traced, and the estimates accumulate.
pub open spec fn sample_pixel_mdl<H: Hittable>(
    world: &H,
    cam: CameraMdl,
    i: int,
    j: int,
    width: int,
    height: int,
    samples: int,
    depth: nat,
    s: u64,
) -> (Seq<Rat>, u64)
    decreases samples,
{
    if samples <= 0 {
        (v_zero(3), s)
    } else {
        let pre = sample_pixel_mdl(world, cam, i, j, width, height, samples - 1, depth, s);
        let vq = coord_mdl(pre.1, j, height);
        let s1 = rng_next(pre.1);
        let uq = coord_mdl(s1, i, width);
        let s2 = rng_next(s1);
        let ray = RayMdl { orig: cam.origin, dir: cam_ray_dir(cam, uq, vq) };
        let rc = ray_color_mdl(ray, world, depth, s2);
        (v_add(pre.0, rc.0), rc.1)
    }
}

/// The summed (not yet tone-mapped) radiance of the pixel at column `i`,
/// row `j`.
pub fn sample_pixel<H: Hittable>(
    world: &H,
    cam: &Camera,
    i: usize,
    j: usize,
    width: usize,
    height: usize,
    samples: usize,
    depth: usize,
    rng: &mut Prng,
) -> (c: Color)
    requires
        i <= 0x4000_0000,
        j <= 0x4000_0000,
        1 <= width <= 0x4000_0000,
        1 <= height <= 0x4000_0000,
    ensures
        c@ == sample_pixel_mdl(
            world,
            cam@,
            i as int,
            j as int,
            width as int,
            height as int,
            samples as int,
            depth as nat,
            old(rng)@,
        ).0,
        final(rng)@ == sample_pixel_mdl(
            world,
            cam@,
            i as int,
            j as int,
            width as int,
            height as int,
            samples as int,
            depth as nat,
            old(rng)@,
        ).1,
{
    let ghost s0 = rng@;
    let z = Q::zero();
    let mut pixel_color = Color::new(z, z, z);
    proof {
        assert(pixel_color@ =~= v_zero(3));
    }
    let mut k: usize = 0;
    while k < samples
        invariant
            k <= samples,
            i <= 0x4000_0000,
            j <= 0x4000_0000,
            1 <= width <= 0x4000_0000,
            1 <= height <= 0x4000_0000,
            pixel_color@ == sample_pixel_mdl(
                world,
                cam@,
                i as int,
                j as int,
                width as int,
                height as int,
                k as int,
                depth as nat,
                s0,
            ).0,
            rng@ == sample_pixel_mdl(
                world,
                cam@,
                i as int,
                j as int,
                width as int,
                height as int,
                k as int,
                depth as nat,
                s0,
            ).1,
        decreases samples - k,
    {
        let v = pixel_coord(rng, j, height);
        let u = pixel_coord(rng, i, width);
        let r = cam.get_ray(u, v);
        pixel_color.add_assign(ray_color(&r, world, depth, rng));
        k += 1;
    }
    pixel_color
}

/// One rendered row: the pixels of row `j` from the left, each sampled and
/// tone-mapped with one over the sample count.
pub open spec fn row_mdl<H: Hittable>(
    world: &H,
    cam: CameraMdl,
    j: int,
    width: int,
    height: int,
    samples: int,
    depth: nat,
    s: u64,
    cols: int,
) -> (Seq<Seq<Rat>>, u64)
    decreases cols,
{
    if cols <= 0 {
        (Seq::empty(), s)
    } else {
        let pre = row_mdl(world, cam, j, width, height, samples, depth, s, cols - 1);
        let px = sample_pixel_mdl(world, cam, cols - 1, j, width, height, samples, depth, pre.1);
        let scale = rat_norm(rat_div(rat_one(), Rat { n: samples, d: 1 }));
        (pre.0.push(fix_pixel_mdl(px.0, scale)), px.1)
    }
}

/// A row's model has one entry per column.
pub proof fn lemma_row_len<H: Hittable>(
    world: &H,
    cam: CameraMdl,
    j: int,
    width: int,
    height: int,
    samples: int,
    depth: nat,
    s: u64,
    cols: int,
)
    requires
        0 <= cols,
    ensures
        row_mdl(world, cam, j, width, height, samples, depth, s, cols).0.len() == cols,
    decreases cols,
{
    if cols > 0 {
        lemma_row_len(world, cam, j, width, height, samples, depth, s, cols - 1);
    }
}

/// Renders the row at index `j`, left to right.
#[verifier::rlimit(100)]
pub fn render_row<H: Hittable>(
    world: &H,
    cam: &Camera,
    j: usize,
    width: usize,
    height: usize,
    samples: usize,
    depth: usize,
    rng: &mut Prng,
) -> (row: Vec<Color>)
    requires
        j <= 0x4000_0000,
        1 <= width <= 0x4000_0000,
        1 <= height <= 0x4000_0000,
        samples <= 0x4000_0000,
    ensures
        row@.map_values(|c: Color| c@) == row_mdl(
            world,
            cam@,
            j as int,
            width as int,
            height as int,
            samples as int,
            depth as nat,
            old(rng)@,
            width as int,
        ).0,
        final(rng)@ == row_mdl(
            world,
            cam@,
            j as int,
            width as int,
            height as int,
            samples as int,
            depth as nat,
            old(rng)@,
            width as int,
        ).1,
        row@.len() == width,
{
    let ghost s0 = rng@;
    let fix_scale = Q::one() / Q::from_int(samples as i64);
    proof {
        assert(fix_scale@ == rat_norm(rat_div(rat_one(), Rat { n: samples as int, d: 1 })));
    }
    let mut idata: Vec<Color> = Vec::with_capacity(width);
    let mut i: usize = 0;
    while i < width
        invariant
            i <= width,
            j <= 0x4000_0000,
            1 <= width <= 0x4000_0000,
            1 <= height <= 0x4000_0000,
            samples <= 0x4000_0000,
            fix_scale@ == rat_norm(rat_div(rat_one(), Rat { n: samples as int, d: 1 })),
            idata@.len() == i,
            idata@.map_values(|c: Color| c@) == row_mdl(
                world,
                cam@,
                j as int,
                width as int,
                height as int,
                samples as int,
                depth as nat,
                s0,
                i as int,
            ).0,
            rng@ == row_mdl(
                world,
                cam@,
                j as int,
                width as int,
                height as int,
                samples as int,
                depth as nat,
                s0,
                i as int,
            ).1,
        decreases width - i,
    {
        let px = sample_pixel(world, cam, i, j, width, height, samples, depth, rng);
        idata.push(fix_pixel(px, fix_scale));
        i += 1;
        proof {
            assert(idata@.map_values(|c: Color| c@) =~= row_mdl(
                world,
                cam@,
                j as int,
                width as int,
                height as int,
                samples as int,
                depth as nat,
                s0,
                i as int,
            ).0);
        }
    }
    idata
}

/// One full frame: rows are rendered top row first (`j` counting down from
/// `height - 1`), each row from a fresh generator seeded by one draw of the
/// master generator, and concatenated in render order.
pub open spec fn frame_mdl<H: Hittable>(
    world: &H,
    cam: CameraMdl,
    width: int,
    height: int,
    samples: int,
    depth: nat,
    s: u64,
    rows: int,
) -> (Seq<Seq<Rat>>, u64)
    decreases rows,
{
    if rows <= 0 {
        (Seq::empty(), s)
    } else {
        let pre = frame_mdl(world, cam, width, height, samples, depth, s, rows - 1);
        let seed = crate::rng::rng_out(pre.1);
        let s1 = rng_next(pre.1);
        let row = row_mdl(world, cam, height - rows, width, height, samples, depth, seed, width);
        (pre.0 + row.0, s1)
    }
}

/// A frame's model has one entry per pixel of the rendered rows.
pub proof fn lemma_frame_len<H: Hittable>(
    world: &H,
    cam: CameraMdl,
    width: int,
    height: int,
    samples: int,
    depth: nat,
    s: u64,
    rows: int,
)
    requires
        0 <= rows,
        0 <= width,
    ensures
        frame_mdl(world, cam, width, height, samples, depth, s, rows).0.len() == rows * width,
    decreases rows,
{
    reveal_with_fuel(frame_mdl, 2);
    if rows == 0 {
        assert(rows * width == 0) by (nonlinear_arith)
            requires
                rows == 0,
        ;
    }
    if rows > 0 {
        lemma_frame_len(world, cam, width, height, samples, depth, s, rows - 1);
        let pre = frame_mdl(world, cam, width, height, samples, depth, s, rows - 1);
        lemma_row_len(
            world,
            cam,
            height - rows,
            width,
            height,
            samples,
            depth,
            crate::rng::rng_out(pre.1),
            width,
        );
        assert(rows * width == (rows - 1) * width + width) by (nonlinear_arith);
        assert(frame_mdl(world, cam, width, height, samples, depth, s, rows).0 == pre.0 + row_mdl(
            world,
            cam,
            height - rows,
            width,
            height,
            samples,
            depth,
            crate::rng::rng_out(pre.1),
            width,
        ).0);
    }
}

/// Renders one frame in row-major order, top row first.
#[verifier::rlimit(100)]
pub fn render_frame<H: Hittable>(
    world: &H,
    cam: &Camera,
    width: usize,
    height: usize,
    samples: usize,
    depth: usize,
    rng: &mut Prng,
) -> (data: Vec<Color>)
    requires
        1 <= width <= 0x4000_0000,
        1 <= height <= 0x4000_0000,
        samples <= 0x4000_0000,
    ensures
        data@.map_values(|c: Color| c@) == frame_mdl(
            world,
            cam@,
            width as int,
            height as int,
            samples as int,
            depth as nat,
            old(rng)@,
            height as int,
        ).0,
        final(rng)@ == frame_mdl(
            world,
            cam@,
            width as int,
            height as int,
            samples as int,
            depth as nat,
            old(rng)@,
            height as int,
        ).1,
        data@.len() == (height as int) * (width as int),
{
    let ghost s0 = rng@;
    let mut data: Vec<Color> = Vec::new();
    proof {
        assert(data@.map_values(|c: Color| c@) =~= frame_mdl(
            world,
            cam@,
            width as int,
            height as int,
            samples as int,
            depth as nat,
            s0,
            0,
        ).0);
        assert(0 * (width as int) == 0) by (nonlinear_arith);
    }
    let mut k: usize = 0;
    while k < height
        invariant
            k <= height,
            1 <= width <= 0x4000_0000,
            1 <= height <= 0x4000_0000,
            samples <= 0x4000_0000,
            data@.len() == (k as int) * (width as int),
            data@.map_values(|c: Color| c@) == frame_mdl(
                world,
                cam@,
                width as int,
                height as int,
                samples as int,
                depth as nat,
                s0,
                k as int,
            ).0,
            rng@ == frame_mdl(
                world,
                cam@,
                width as int,
                height as int,
                samples as int,
                depth as nat,
                s0,
                k as int,
            ).1,
        decreases height - k,
    {
        let j = height - 1 - k;
        let seed = rng.next_u64();
        let mut row_rng = Prng::new(seed);
        let mut row = render_row(world, cam, j, width, height, samples, depth, &mut row_rng);
        data.append(&mut row);
        k += 1;
        proof {
            assert((k - 1) as int * (width as int) + (width as int) == (k as int) * (
            width as int)) by (nonlinear_arith);
            assert(data@.map_values(|c: Color| c@) =~= frame_mdl(
                world,
                cam@,
                width as int,
                height as int,
                samples as int,
                depth as nat,
                s0,
                k as int,
            ).0);
        }
    }
    data
}

/// The elementwise sum of `reps` frames rendered in sequence from one
/// master generator, the first frame starting the accumulator.
pub open spec fn frames_sum_mdl<H: Hittable>(
    world: &H,
    cam: CameraMdl,
    width: int,
    height: int,
    samples: int,
    depth: nat,
    s: u64,
    reps: int,
) -> (Seq<Seq<Rat>>, u64)
    decreases reps,
{
    if reps <= 0 {
        (Seq::empty(), s)
    } else {
        let pre = frames_sum_mdl(world, cam, width, height, samples, depth, s, reps - 1);
        let f = frame_mdl(world, cam, width, height, samples, depth, pre.1, height);
        if reps == 1 {
            f
        } else {
            (Seq::new(pre.0.len(), |p: int| v_add(pre.0[p], f.0[p])), f.1)
        }
    }
}

/// The whole run: `repetition` frames rendered in sequence, summed
/// elementwise and divided by the repetition count.
pub open spec fn run_mdl<H: Hittable>(
    world: &H,
    cam: CameraMdl,
    width: int,
    height: int,
    samples: int,
    depth: nat,
    repetition: int,
    s: u64,
) -> (Seq<Seq<Rat>>, u64) {
    let sum = frames_sum_mdl(world, cam, width, height, samples, depth, s, repetition);
    (Seq::new(sum.0.len(), |p: int| v_div(sum.0[p], Rat { n: repetition, d: 1 })), sum.1)
}

/// The frame sum has one entry per pixel once at least one frame is in.
pub proof fn lemma_frames_sum_len<H: Hittable>(
    world: &H,
    cam: CameraMdl,
    width: int,
    height: int,
    samples: int,
    depth: nat,
    s: u64,
    reps: int,
)
    requires
        1 <= reps,
        0 <= width,
        0 <= height,
    ensures
        frames_sum_mdl(world, cam, width, height, samples, depth, s, reps).0.len() == height
            * width,
    decreases reps,
{
    let pre = frames_sum_mdl(world, cam, width, height, samples, depth, s, reps - 1);
    lemma_frame_len(world, cam, width, height, samples, depth, pre.1, height);
    if reps > 1 {
        lemma_frames_sum_len(world, cam, width, height, samples, depth, s, reps - 1);
    }
}

/// Renders `repetition` frames and averages them elementwise into the
/// final image, in row-major order with the top row first.
#[verifier::rlimit(100)]
pub fn run<H: Hittable>(
    world: &H,
    cam: &Camera,
    width: usize,
    height: usize,
    samples: usize,
    depth: usize,
    repetition: usize,
    rng: &mut Prng,
) -> (data: Vec<Color>)
    requires
        1 <= width <= 0x4000_0000,
        1 <= height <= 0x4000_0000,
        samples <= 0x4000_0000,
        1 <= repetition <= 0x4000_0000,
    ensures
        data@.map_values(|c: Color| c@) == run_mdl(
            world,
            cam@,
            width as int,
            height as int,
            samples as int,
            depth as nat,
            repetition as int,
            old(rng)@,
        ).0,
        final(rng)@ == run_mdl(
            world,
            cam@,
            width as int,
            height as int,
            samples as int,
            depth as nat,
            repetition as int,
            old(rng)@,
        ).1,
        data@.len() == (height as int) * (width as int),
{
    let ghost s0 = rng@;
    let mut res = render_frame(world, cam, width, height, samples, depth, rng);
    proof {
        reveal_with_fuel(frames_sum_mdl, 2);
        assert(frames_sum_mdl(
            world,
            cam@,
            width as int,
            height as int,
            samples as int,
            depth as nat,
            s0,
            1,
        ) == frame_mdl(
            world,
            cam@,
            width as int,
            height as int,
            samples as int,
            depth as nat,
            s0,
            height as int,
        ));
    }
    let mut k: usize = 1;
    while k < repetition
        invariant
            1 <= k <= repetition,
            1 <= width <= 0x4000_0000,
            1 <= height <= 0x4000_0000,
            samples <= 0x4000_0000,
            repetition <= 0x4000_0000,
            res@.len() == (height as int) * (width as int),
            res@.map_values(|c: Color| c@) == frames_sum_mdl(
                world,
                cam@,
                width as int,
                height as int,
                samples as int,
                depth as nat,
                s0,
                k as int,
            ).0,
            rng@ == frames_sum_mdl(
                world,
                cam@,
                width as int,
                height as int,
                samples as int,
                depth as nat,
                s0,
                k as int,
            ).1,
        decreases repetition - k,
    {
        let ghost pre_sum = frames_sum_mdl(
            world,
            cam@,
            width as int,
            height as int,
            samples as int,
            depth as nat,
            s0,
            k as int,
        );
        proof {
            lemma_frames_sum_len(
                world,
                cam@,
                width as int,
                height as int,
                samples as int,
                depth as nat,
                s0,
                k as int,
            );
        }
        let arr = render_frame(world, cam, width, height, samples, depth, rng);
        let ghost f_view = arr@.map_values(|c: Color| c@);
        let n = res.len();
        let mut idx: usize = 0;
        while idx < n
            invariant
                idx <= n,
                n == res@.len(),
                arr@.len() == n,
                pre_sum.0.len() == n,
                f_view == arr@.map_values(|c: Color| c@),
                forall|p: int| 0 <= p < idx ==> #[trigger] res@[p]@ == v_add(
                    pre_sum.0[p],
                    f_view[p],
                ),
                forall|p: int| idx <= p < n ==> #[trigger] res@[p]@ == pre_sum.0[p],
            decreases n - idx,
        {
            let sum = res[idx] + arr[idx];
            res.set(idx, sum);
            idx += 1;
        }
        k += 1;
        proof {
            assert(res@.map_values(|c: Color| c@) =~= frames_sum_mdl(
                world,
                cam@,
                width as int,
                height as int,
                samples as int,
                depth as nat,
                s0,
                k as int,
            ).0);
        }
    }
    let ghost final_sum = frames_sum_mdl(
        world,
        cam@,
        width as int,
        height as int,
        samples as int,
        depth as nat,
        s0,
        repetition as int,
    );
    let reps_q = Q::from_int(repetition as i64);
    proof {
        assert(reps_q@ == (Rat { n: repetition as int, d: 1 }));
    }
    let n = res.len();
    let mut idx: usize = 0;
    while idx < n
        invariant
            idx <= n,
            n == res@.len(),
            final_sum.0.len() == n,
            reps_q@ == (Rat { n: repetition as int, d: 1 }),
            forall|p: int| 0 <= p < idx ==> #[trigger] res@[p]@ == v_div(
                final_sum.0[p],
                Rat { n: repetition as int, d: 1 },
            ),
            forall|p: int| idx <= p < n ==> #[trigger] res@[p]@ == final_sum.0[p],
        decreases n - idx,
    {
        let q = res[idx] / reps_q;
        res.set(idx, q);
        idx += 1;
    }
    proof {
        assert(res@.map_values(|c: Color| c@) =~= run_mdl(
            world,
            cam@,
            width as int,
            height as int,
            samples as int,
            depth as nat,
            repetition as int,
            s0,
        ).0);
    }
    res
}

} // verus!
