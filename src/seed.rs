use vstd::prelude::*;
use crate::outline::{build_edge_mask, build_inside_mask, edge_mask_spec, inside_spec};
use crate::rng::{lcg_iter, lcg_next, sample_bits, Lcg};

verus! {

/// Candidate points scattered around each kept edge cell.
pub const CANDIDATES: usize = 4;

/// Jitter samples drawn for each kept edge cell: a horizontal and a vertical
/// one for every candidate, in that order.
pub const JITTER_DRAWS: usize = 8;

/// The denominator of a sample: a sample `b` stands for `b / 2^24`.
pub const SAMPLE_ONE: u64 = 0x100_0000;

/// Whether a canvas of `width`×`height` pixels is non-empty and fully covered
/// by an RGBA buffer of `len` bytes.
pub open spec fn canvas_fits(width: int, height: int, len: int) -> bool {
    width > 0 && height > 0 && len >= width * height * 4
}

/// A sample of `bits / 2^24` keeps a cell when it is at most `1 / step^2`.
pub open spec fn keeps(bits: int, step: int) -> bool {
    bits * step * step <= SAMPLE_ONE as int
}

/// The `k` samples that follow state `s`, in order.
pub open spec fn draws(s: u32, k: nat) -> Seq<u32> {
    Seq::new(k, |q: int| sample_bits(lcg_iter(s, (q + 1) as nat)))
}

/// The seeding of the first `n` cells of `edge`, from generator state `s`:
/// the kept cells, their jitter samples, and the generator state afterwards.
/// Each marked cell draws one sample; a kept cell then draws `JITTER_DRAWS` more.
pub open spec fn seed_plan_spec(edge: Seq<u8>, step: int, s: u32, n: nat) -> (Seq<usize>, Seq<u32>, u32)
    decreases n,
{
    if n == 0 {
        (Seq::empty(), Seq::empty(), s)
    } else {
        let (cells, jitter, t) = seed_plan_spec(edge, step, s, (n - 1) as nat);
        if edge[n - 1] == 0 {
            (cells, jitter, t)
        } else {
            let t1 = lcg_next(t);
            if keeps(sample_bits(t1) as int, step) {
                (
                    cells.push((n - 1) as usize),
                    jitter + draws(t1, JITTER_DRAWS as nat),
                    lcg_iter(t1, JITTER_DRAWS as nat),
                )
            } else {
                (cells, jitter, t1)
            }
        }
    }
}

/// The number of marked cells among the first `n` cells of `m`.
pub open spec fn marked_count(m: Seq<u8>, n: nat) -> nat
    decreases n,
{
    if n == 0 {
        0
    } else {
        marked_count(m, (n - 1) as nat) + if m[n - 1] != 0 { 1nat } else { 0nat }
    }
}

/// The cells that seeding keeps, with the random samples that place their candidates.
pub struct SeedPlan {
    /// Row-major indices of the kept edge cells, in increasing order.
    pub cells: Vec<usize>,
    /// `JITTER_DRAWS` samples per kept cell, in the order of `cells`.
    pub jitter: Vec<u32>,
}

/// Seeding keeps at most every marked cell, and draws `JITTER_DRAWS`
/// samples for each cell it keeps; so it yields at most `CANDIDATES` points
/// per marked cell of the edge mask.
pub proof fn lemma_seed_plan_count(edge: Seq<u8>, step: int, s: u32, n: nat)
    requires
        n <= edge.len(),
    ensures
        seed_plan_spec(edge, step, s, n).0.len() <= marked_count(edge, n),
        seed_plan_spec(edge, step, s, n).1.len() == JITTER_DRAWS * seed_plan_spec(edge, step, s, n).0.len(),
        CANDIDATES * seed_plan_spec(edge, step, s, n).0.len() <= CANDIDATES * marked_count(edge, n),
    decreases n,
{
    if n > 0 {
        lemma_seed_plan_count(edge, step, s, (n - 1) as nat);
    }
}

/// Step size with zero read as one.
pub fn normalized_step(step: u32) -> (r: usize)
    ensures
        r == (if step == 0 { 1 } else { step as int }),
{
    if step == 0 {
        1
    } else {
        step as usize
    }
}

/// Search radius used to snap a freshly seeded candidate onto the edge band:
/// `max(step, 4) * 2`.
pub fn seed_snap_radius(step: usize) -> (r: i64)
    requires
        step <= u32::MAX,
    ensures
        r == 2 * (if step < 4 { 4 } else { step as int }),
{
    let s: i64 = if step < 4 { 4 } else { step as i64 };
    s * 2
}

/// Search radius used to re-snap particles during relaxation:
/// `max(step, 2) * 3 + 5`.
pub fn relax_snap_radius(step: usize) -> (r: i64)
    requires
        step <= u32::MAX,
    ensures
        r == 3 * (if step < 2 { 2 } else { step as int }) + 5,
{
    let s: i64 = if step < 2 { 2 } else { step as i64 };
    s * 3 + 5
}

/// Whether a `width`×`height` canvas is non-empty and covered by `len` RGBA bytes.
pub fn canvas_ok(width: u32, height: u32, len: usize) -> (r: bool)
    ensures
        r == canvas_fits(width as int, height as int, len as int),
{
    if width == 0 || height == 0 {
        return false;
    }
    assert(width as u128 * height as u128 <= 0xFFFF_FFFFu128 * 0xFFFF_FFFFu128) by (nonlinear_arith)
        requires
            width <= u32::MAX,
            height <= u32::MAX,
    ;
    let area: u128 = width as u128 * height as u128;
    (len as u128) >= area * 4
}

/// The edge band of an RGBA image, or `None` when the canvas is empty or the
/// buffer is too short for it.
pub fn edge_mask_from_rgba(width: u32, height: u32, rgba: &[u8], alpha_threshold: u8) -> (r: Option<Vec<u8>>)
    ensures
        r is None <==> !canvas_fits(width as int, height as int, rgba@.len() as int),
        r matches Some(m) ==> m@ == edge_mask_spec(
            width as int,
            height as int,
            inside_spec(width as int, height as int, rgba@, alpha_threshold),
        ),
{
    if !canvas_ok(width, height, rgba.len()) {
        return None;
    }
    let w = width as usize;
    let h = height as usize;
    let inside = build_inside_mask(w, h, rgba, alpha_threshold);
    Some(build_edge_mask(w, h, inside.as_slice()))
}

/// Whether a sample `bits` (read as `bits / 2^24`) keeps a cell at the given step.
pub fn keeps_sample(bits: u32, step: usize) -> (r: bool)
    requires
        bits < SAMPLE_ONE,
        step >= 1,
    ensures
        r == keeps(bits as int, step as int),
{
    if step > 0x1000 {
        assert(bits == 0 <==> keeps(bits as int, step as int)) by (nonlinear_arith)
            requires
                step > 0x1000,
                bits >= 0,
        ;
        bits == 0
    } else {
        assert(step * step <= 0x100_0000) by (nonlinear_arith)
            requires
                1 <= step <= 0x1000,
        ;
        let sq: u64 = (step * step) as u64;
        assert(bits as u64 * sq <= 0x100_0000u64 * 0x100_0000u64) by (nonlinear_arith)
            requires
                bits < 0x100_0000,
                sq <= 0x100_0000,
        ;
        assert((bits as u64 * sq) as int == bits as int * step as int * step as int) by (nonlinear_arith)
            requires
                sq == step * step,
                bits as u64 * sq <= 0x100_0000u64 * 0x100_0000u64,
        ;
        bits as u64 * sq <= SAMPLE_ONE
    }
}

/// Walks the edge mask in row-major order. Each marked cell draws one sample
/// and is kept when the sample is at most `1 / step^2`; each kept cell then
/// draws `JITTER_DRAWS` samples for its candidates' jitter.
pub fn plan_seeds(edge: &[u8], step: usize, rng: &mut Lcg) -> (r: SeedPlan)
    requires
        step >= 1,
    ensures
        (r.cells@, r.jitter@, final(rng).state()) == seed_plan_spec(
            edge@,
            step as int,
            old(rng).state(),
            edge@.len(),
        ),
        r.cells@.len() <= marked_count(edge@, edge@.len()),
        r.jitter@.len() == JITTER_DRAWS * r.cells@.len(),
{
    let ghost s0 = rng.state();
    let n = edge.len();
    let mut cells: Vec<usize> = Vec::new();
    let mut jitter: Vec<u32> = Vec::new();
    let mut i: usize = 0;
    while i < n
        invariant
            n == edge@.len(),
            i <= n,
            step >= 1,
            (cells@, jitter@, rng.state()) == seed_plan_spec(edge@, step as int, s0, i as nat),
        decreases n - i,
    {
        if edge[i] != 0 {
            let b = rng.next_sample_bits();
            if keeps_sample(b, step) {
                let ghost t1 = rng.state();
                let ghost j0 = jitter@;
                cells.push(i);
                let mut q: usize = 0;
                while q < JITTER_DRAWS
                    invariant
                        q <= JITTER_DRAWS,
                        rng.state() == lcg_iter(t1, q as nat),
                        jitter@ == j0 + draws(t1, q as nat),
                    decreases JITTER_DRAWS - q,
                {
                    let d = rng.next_sample_bits();
                    jitter.push(d);
                    q += 1;
                    assert(jitter@ =~= j0 + draws(t1, q as nat));
                }
            }
        }
        i += 1;
    }
    proof {
        lemma_seed_plan_count(edge@, step as int, s0, n as nat);
    }
    SeedPlan { cells, jitter }
}

} // verus!
