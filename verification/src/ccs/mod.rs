//! CCS instances and witnesses for nox execution traces.
pub mod hash_binding;
pub mod look;
pub mod pattern_laws;
pub mod patterns;
pub mod root;
pub mod selector;
pub mod transcript;
pub mod universal;
pub mod universal_laws;
pub mod verifier_steps;

use crate::ccs::patterns::{build_step_ccs, has_shape, mat_cells, pattern_shape, trivial_ccs, trivial_shape, PatternShape};
use crate::ccs::verifier_steps::{eq_steps_of, verifier_steps, vsteps_pairs, OpeningView};
use crate::field::{modulus, Goldilocks};
use crate::types::{CCSInstance, CCSWitness, CommitError, SparseMatrix};
use vstd::arithmetic::power2::{lemma_pow2_pos, lemma_pow2_unfold, pow2};
use vstd::prelude::*;

verus! {

/// z-index of the constant 1.
pub const CONST_IDX: usize = 32;

/// Length of the witness vector z (before padding).
pub const Z_LEN: usize = 33;

/// z-index of register r at row t.
pub fn reg_t(r: usize) -> (i: usize)
    ensures
        i == r,
{
    r
}

/// z-index of register r at row t+1.
pub fn reg_t1(r: usize) -> (i: usize)
    requires
        r + 16 <= usize::MAX,
    ensures
        i == r + 16,
{
    r + 16
}

/// A one-row matrix over `Z_LEN` columns that selects z[col] with coefficient 1.
pub fn select_matrix(col: usize) -> (m: SparseMatrix)
    ensures
        mat_cells(m, seq![Some(col)], 1),
{
    let mut m = SparseMatrix::new(1, Z_LEN);
    m.set(0, col, Goldilocks::one());
    proof {
        let cs = seq![Some(col)];
        assert(cs[0] == Some(col));
    }
    m
}

/// The pattern tag a trace row carries: r0 when it fits a byte, 255 otherwise.
pub open spec fn row_tag(row: [u64; 16]) -> u8 {
    if row[0] < 256 {
        row[0] as u8
    } else {
        255
    }
}

/// `w` is z = [r_t, r_{t+1}, 1] for two trace rows, each register reduced.
pub open spec fn is_row_witness(w: CCSWitness, row_t: [u64; 16], row_t1: [u64; 16]) -> bool {
    &&& w.z@.len() == Z_LEN
    &&& forall|i: int| 0 <= i < 16 ==> #[trigger] w.z@[i]@ == row_t[i] as nat % modulus()
    &&& forall|i: int| 16 <= i < 32 ==> #[trigger] w.z@[i]@ == row_t1[i - 16] as nat % modulus()
    &&& w.z@[32]@ == 1
}

/// Build z from two consecutive trace rows:
/// z = [r0_t, ..., r15_t, r0_{t+1}, ..., r15_{t+1}, 1].
pub fn witness_from_rows(row_t: &[u64; 16], row_t1: &[u64; 16]) -> (w: CCSWitness)
    ensures
        is_row_witness(w, *row_t, *row_t1),
{
    let mut z: Vec<Goldilocks> = Vec::new();
    let mut i: usize = 0;
    while i < 16
        invariant
            i <= 16,
            z@.len() == i,
            forall|j: int| 0 <= j < i ==> #[trigger] z@[j]@ == row_t[j] as nat % modulus(),
        decreases 16 - i,
    {
        z.push(Goldilocks::new(row_t[i]).canonicalize());
        i = i + 1;
    }
    let mut i: usize = 0;
    while i < 16
        invariant
            i <= 16,
            z@.len() == 16 + i,
            forall|j: int| 0 <= j < 16 ==> #[trigger] z@[j]@ == row_t[j] as nat % modulus(),
            forall|j: int| 16 <= j < 16 + i ==> #[trigger] z@[j]@ == row_t1[j - 16] as nat % modulus(),
        decreases 16 - i,
    {
        z.push(Goldilocks::new(row_t1[i]).canonicalize());
        i = i + 1;
    }
    z.push(Goldilocks::one());
    CCSWitness { z }
}

/// Patterns that emit several consecutive trace rows (10–15).
pub open spec fn spec_is_multi_row(tag: u8) -> bool {
    10 <= tag <= 15
}

/// Whether pattern `tag` emits several consecutive trace rows.
pub fn is_multi_row(tag: u8) -> (b: bool)
    ensures
        b == spec_is_multi_row(tag),
{
    10 <= tag && tag <= 15
}

/// The shape of the step instance for a row of tag `tag_t` followed by a
/// row of tag `tag_t1`: a multi-row pattern's boundary pair carries no
/// constraint, every other pair its pattern's.
pub open spec fn step_shape(tag_t: u8, tag_t1: u8) -> PatternShape {
    if spec_is_multi_row(tag_t) && tag_t != tag_t1 {
        trivial_shape()
    } else {
        pattern_shape(tag_t)
    }
}

/// The tag of a row, as the trace records it.
fn tag_of(row: &[u64; 16]) -> (t: u8)
    ensures
        t == row_tag(*row),
{
    if row[0] < 256 {
        row[0] as u8
    } else {
        255
    }
}

/// Build all per-step (CCSInstance, CCSWitness) pairs from a trace: one
/// pair for each two consecutive rows.
pub fn build_ccs_from_trace(trace: &[[u64; 16]]) -> (steps: Vec<(CCSInstance, CCSWitness)>)
    ensures
        steps@.len() == (if trace@.len() < 2 { 0 } else { trace@.len() - 1 }),
        forall|t: int|
            0 <= t < steps@.len() ==> has_shape(&(#[trigger] steps@[t]).0, step_shape(row_tag(trace@[t]), row_tag(trace@[t + 1])))
                && steps@[t].0.wf() && is_row_witness(steps@[t].1, trace@[t], trace@[t + 1]),
{
    let mut steps: Vec<(CCSInstance, CCSWitness)> = Vec::new();
    if trace.len() < 2 {
        return steps;
    }
    let mut t: usize = 0;
    let last = trace.len() - 1;
    while t < last
        invariant
            trace@.len() >= 2,
            last == trace@.len() - 1,
            t <= last,
            steps@.len() == t,
            forall|s: int|
                0 <= s < t ==> has_shape(&(#[trigger] steps@[s]).0, step_shape(row_tag(trace@[s]), row_tag(trace@[s + 1])))
                    && steps@[s].0.wf() && is_row_witness(steps@[s].1, trace@[s], trace@[s + 1]),
        decreases trace@.len() - t,
    {
        let tag_t = tag_of(&trace[t]);
        let tag_t1 = tag_of(&trace[t + 1]);
        let instance = if is_multi_row(tag_t) && tag_t != tag_t1 {
            trivial_ccs()
        } else {
            build_step_ccs(tag_t)
        };
        let witness = witness_from_rows(&trace[t], &trace[t + 1]);
        steps.push((instance, witness));
        t = t + 1;
    }
    steps
}

/// The number of bits of `a` below its most significant one.
pub open spec fn below_msb(a: nat) -> nat
    decreases a,
{
    if a <= 1 {
        0
    } else {
        1 + below_msb(a / 2)
    }
}

/// The Lens evaluation point of an axis address: the bits of `addr` below
/// its leading one, least significant first, as field elements. Empty for
/// addresses 0 and 1.
pub fn axis_eval_point(addr: u64) -> (pt: Vec<Goldilocks>)
    ensures
        pt@.len() == below_msb(addr as nat),
        forall|i: int| 0 <= i < pt@.len() ==> #[trigger] pt@[i]@ == (addr as nat / pow2(i as nat)) % 2,
{
    let mut pt: Vec<Goldilocks> = Vec::new();
    if addr <= 1 {
        return pt;
    }
    let mut a: u64 = addr;
    let mut bits: u64 = 0;
    while a > 1
        invariant
            below_msb(addr as nat) == bits + below_msb(a as nat),
            bits + a <= addr,
        decreases a,
    {
        a = a / 2;
        bits = bits + 1;
    }
    let mut rest: u64 = addr;
    let mut i: u64 = 0;
    proof {
        vstd::arithmetic::power2::lemma2_to64();
    }
    while i < bits
        invariant
            i <= bits,
            pt@.len() == i,
            rest as nat == addr as nat / pow2(i as nat),
            forall|j: int| 0 <= j < i ==> #[trigger] pt@[j]@ == (addr as nat / pow2(j as nat)) % 2,
        decreases bits - i,
    {
        let b = if rest % 2 == 1 {
            Goldilocks::one()
        } else {
            Goldilocks::zero()
        };
        pt.push(b);
        proof {
            lemma_pow2_pos(i as nat);
            lemma_pow2_unfold((i + 1) as nat);
            vstd::arithmetic::div_mod::lemma_div_denominator(addr as int, pow2(i as nat) as int, 2);
        }
        rest = rest / 2;
        i = i + 1;
    }
    pt
}

/// All data the prover supplies to verify one axis opening outside the main fold.
pub struct AxisOpening {
    /// 32-byte Lens commitment to the object noun polynomial.
    pub commitment: [u8; 32],
    /// Evaluation point: binary decomposition of the axis address.
    pub point: Vec<Goldilocks>,
    /// Claimed polynomial value at that point.
    pub value: Goldilocks,
    /// What the equality rows read of the opening proof.
    pub opening: OpeningView,
    /// Bytes the opening transcript was seeded with.
    pub transcript_seed: Vec<u8>,
}

/// The number of rows among the first `n` whose r0 is `tag`.
pub open spec fn count_tag(trace: Seq<[u64; 16]>, n: int, tag: u64) -> nat
    decreases n,
{
    if n <= 0 {
        0
    } else {
        count_tag(trace, n - 1, tag) + if trace[n - 1][0] == tag { 1nat } else { 0nat }
    }
}

proof fn lemma_count_mono(trace: Seq<[u64; 16]>, a: int, b: int, tag: u64)
    requires
        0 <= a <= b,
    ensures
        count_tag(trace, a, tag) <= count_tag(trace, b, tag),
    decreases b - a,
{
    if a < b {
        lemma_count_mono(trace, a, b - 1, tag);
    }
}

/// The pairs the axis steps compare over the first `n` rows: for each axis
/// row (r0 = 0), in order, the equality pairs of the next opening.
pub open spec fn axis_pairs(trace: Seq<[u64; 16]>, openings: Seq<AxisOpening>, n: int) -> Seq<(nat, nat)>
    decreases n,
{
    if n <= 0 {
        seq![]
    } else {
        axis_pairs(trace, openings, n - 1) + if trace[n - 1][0] == 0 {
            let o = openings[count_tag(trace, n - 1, 0) as int];
            vsteps_pairs(o.commitment@, o.value@, o.opening)
        } else {
            seq![]
        }
    }
}

proof fn lemma_eq_steps_append(
    a: Seq<(CCSInstance, CCSWitness)>,
    pa: Seq<(nat, nat)>,
    b: Seq<(CCSInstance, CCSWitness)>,
    pb: Seq<(nat, nat)>,
)
    requires
        eq_steps_of(a, pa),
        eq_steps_of(b, pb),
    ensures
        eq_steps_of(a + b, pa + pb),
{
    assert forall|i: int| 0 <= i < (a + b).len() implies crate::ccs::verifier_steps::is_eq_instance(&(#[trigger] (a + b)[i]).0)
        && crate::ccs::verifier_steps::step_z((a + b)[i].1, (pa + pb)[i]) by {
        if i >= a.len() {
            assert((a + b)[i] == b[i - a.len()]);
            assert((pa + pb)[i] == pb[i - a.len()]);
        }
    }
}

/// The equality steps of every axis row of the trace, each with the
/// matching opening (parallel, in order of the axis rows).
///
/// `Err(TraceOverflow)` when there are fewer openings than axis rows.
pub fn build_axis_steps_from_trace(trace: &[[u64; 16]], openings: &[AxisOpening]) -> (r: Result<Vec<(CCSInstance, CCSWitness)>, CommitError>)
    ensures
        r is Err <==> count_tag(trace@, trace@.len() as int, 0) > openings@.len(),
        r matches Err(e) ==> e is TraceOverflow,
        r matches Ok(steps) ==> eq_steps_of(steps@, axis_pairs(trace@, openings@, trace@.len() as int)),
{
    let mut steps: Vec<(CCSInstance, CCSWitness)> = Vec::new();
    let mut opening_idx: usize = 0;
    let mut i: usize = 0;
    while i < trace.len()
        invariant
            i <= trace@.len(),
            opening_idx == count_tag(trace@, i as int, 0),
            opening_idx <= openings@.len(),
            eq_steps_of(steps@, axis_pairs(trace@, openings@, i as int)),
        decreases trace@.len() - i,
    {
        if trace[i][0] == 0 {
            if opening_idx >= openings.len() {
                proof {
                    lemma_count_mono(trace@, i + 1, trace@.len() as int, 0);
                }
                return Err(CommitError::TraceOverflow);
            }
            let ao = &openings[opening_idx];
            let mut vs = verifier_steps(&ao.commitment, &ao.point, ao.value, &ao.opening);
            let ghost prev = steps@;
            proof {
                lemma_eq_steps_append(prev, axis_pairs(trace@, openings@, i as int), vs@, vsteps_pairs(ao.commitment@, ao.value@, ao.opening));
            }
            steps.append(&mut vs);
            opening_idx = opening_idx + 1;
        } else {
            proof {
                assert(axis_pairs(trace@, openings@, i + 1) =~= axis_pairs(trace@, openings@, i as int));
            }
        }
        i = i + 1;
    }
    Ok(steps)
}

/// The rows of each transcript.
pub open spec fn transcript_views(t: Seq<Vec<CCSWitness>>) -> Seq<Seq<CCSWitness>> {
    Seq::new(t.len(), |i: int| t[i]@)
}

/// The rows of the first `n` transcripts, in order.
pub open spec fn rows_of_first(ts: Seq<Seq<CCSWitness>>, n: int) -> Seq<CCSWitness>
    decreases n,
{
    if n <= 0 {
        seq![]
    } else {
        rows_of_first(ts, n - 1) + ts[n - 1]
    }
}

/// The transcript rows of the openings of the rows tagged `tag`: one
/// transcript per such row, in order.
fn transcript_steps_for(trace: &[[u64; 16]], tag: u64, transcripts: Vec<Vec<CCSWitness>>) -> (r: Result<Vec<CCSWitness>, CommitError>)
    ensures
        ({
            let ts = transcript_views(transcripts@);
            let n = count_tag(trace@, trace@.len() as int, tag);
            &&& (r is Err <==> n > ts.len())
            &&& (r matches Err(e) ==> e is TraceOverflow)
            &&& (r matches Ok(v) ==> v@ == rows_of_first(ts, n as int))
        }),
{
    let ghost ts = transcript_views(transcripts@);
    let mut pending = transcripts;
    let mut rev: Vec<Vec<CCSWitness>> = Vec::new();
    while pending.len() > 0
        invariant
            ts == transcript_views(transcripts@),
            pending@.len() + rev@.len() == ts.len(),
            forall|i: int| 0 <= i < pending@.len() ==> (#[trigger] pending@[i])@ == ts[i],
            forall|i: int| 0 <= i < rev@.len() ==> (#[trigger] rev@[i])@ == ts[ts.len() - 1 - i],
        decreases pending@.len(),
    {
        let c = pending.pop().unwrap();
        rev.push(c);
    }
    let total = rev.len();
    let mut steps: Vec<CCSWitness> = Vec::new();
    let mut used: usize = 0;
    let mut i: usize = 0;
    while i < trace.len()
        invariant
            ts == transcript_views(transcripts@),
            total == ts.len(),
            i <= trace@.len(),
            used == count_tag(trace@, i as int, tag),
            used <= ts.len(),
            rev@.len() == ts.len() - used,
            forall|j: int| 0 <= j < rev@.len() ==> (#[trigger] rev@[j])@ == ts[ts.len() - 1 - j],
            steps@ == rows_of_first(ts, used as int),
        decreases trace@.len() - i,
    {
        if trace[i][0] == tag {
            if rev.len() == 0 {
                proof {
                    assert(count_tag(trace@, i + 1, tag) == used + 1);
                    lemma_count_mono(trace@, i + 1, trace@.len() as int, tag);
                    assert(ts.len() == used);
                }
                return Err(CommitError::TraceOverflow);
            }
            let mut t = rev.pop().unwrap();
            steps.append(&mut t);
            used = used + 1;
        }
        i = i + 1;
    }
    Ok(steps)
}

/// The Fiat-Shamir transcript rows of every axis opening: `transcripts[k]`
/// holds the rows of the opening of the k-th axis row, and they are taken
/// in order, one per axis row.
///
/// `Err(TraceOverflow)` when there are fewer transcripts than axis rows.
pub fn build_axis_transcript_steps(trace: &[[u64; 16]], transcripts: Vec<Vec<CCSWitness>>) -> (r: Result<Vec<CCSWitness>, CommitError>)
    ensures
        ({
            let ts = transcript_views(transcripts@);
            let n = count_tag(trace@, trace@.len() as int, 0);
            &&& (r is Err <==> n > ts.len())
            &&& (r matches Err(e) ==> e is TraceOverflow)
            &&& (r matches Ok(v) ==> v@ == rows_of_first(ts, n as int))
        }),
{
    transcript_steps_for(trace, 0, transcripts)
}

/// The Fiat-Shamir transcript rows of every look opening (rows tagged 17),
/// as for axis rows.
///
/// `Err(TraceOverflow)` when there are fewer transcripts than look rows.
pub fn build_look_transcript_steps(trace: &[[u64; 16]], transcripts: Vec<Vec<CCSWitness>>) -> (r: Result<Vec<CCSWitness>, CommitError>)
    ensures
        ({
            let ts = transcript_views(transcripts@);
            let n = count_tag(trace@, trace@.len() as int, 17);
            &&& (r is Err <==> n > ts.len())
            &&& (r matches Err(e) ==> e is TraceOverflow)
            &&& (r matches Ok(v) ==> v@ == rows_of_first(ts, n as int))
        }),
{
    transcript_steps_for(trace, 17, transcripts)
}

} // verus!
