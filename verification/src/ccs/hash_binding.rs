//! Trace bindings for pattern-15 hash blocks.
//!
//! A hash block is a run of at least two consecutive rows of tag 15. Each
//! block consumes one replay of the Poseidon2 sponge (the 24 post-round
//! states generated from the block's claimed rate), in trace order, and
//! every row of the block is bound to it by equality steps:
//!
//! - round row k (0..23): r4-r7 = state_k[0..4], r10-r13 = state_k[4..8],
//!   r14 = k
//! - squeeze row: r4-r7 = final state[0..4], r10-r13 = final state[4..8],
//!   r14 = 24
use crate::ccs::verifier_steps::{eq_step, eq_steps_of};
use crate::field::{modulus, Goldilocks};
use crate::types::{CCSInstance, CCSWitness, CommitError};
use vstd::prelude::*;

verus! {

/// Rows per hash block: 24 round rows + 1 squeeze row.
pub const BLOCK_ROWS: usize = 25;

/// Prover-supplied auxiliary data for one Poseidon2 hash block: the
/// 8-element rate input (the 4-element structural digest padded with zeros).
pub struct HashAux {
    pub rate: [Goldilocks; 8],
}

/// Register `i` of a row, reduced into F_p.
pub open spec fn reg_val(row: [u64; 16], i: int) -> nat {
    row[i] as nat % modulus()
}

/// The nine pairs binding one block row to sponge state `st` at round `k`:
/// state[0..4] against r4-r7, state[4..8] against r10-r13, k against r14.
pub open spec fn row_pairs(st: [Goldilocks; 16], row: [u64; 16], k: nat) -> Seq<(nat, nat)> {
    Seq::new(
        9,
        |j: int|
            if j < 4 {
                (st[j]@, reg_val(row, 4 + j))
            } else if j < 8 {
                (st[j]@, reg_val(row, 6 + j))
            } else {
                (k, reg_val(row, 14))
            },
    )
}

/// The pairs of the first `n` rows of a block: row k is bound to state k,
/// the squeeze row (k = 24) to the last state.
pub open spec fn block_pairs(states: Seq<[Goldilocks; 16]>, rows: Seq<[u64; 16]>, n: nat) -> Seq<(nat, nat)>
    decreases n,
{
    if n == 0 {
        seq![]
    } else {
        let k = (n - 1) as nat;
        block_pairs(states, rows, k) + row_pairs(states[if k < 24 { k as int } else { 23 }], rows[k as int], k)
    }
}

/// Both sides of every pair are equal.
pub open spec fn pairs_hold(ps: Seq<(nat, nat)>) -> bool {
    forall|i: int| 0 <= i < ps.len() ==> (#[trigger] ps[i]).0 == ps[i].1
}

/// The end of the run of tag-15 rows that starts at `i`.
pub open spec fn run_end(trace: Seq<[u64; 16]>, i: int) -> int
    decreases trace.len() - i,
{
    if 0 <= i < trace.len() && trace[i][0] == 15 {
        run_end(trace, i + 1)
    } else {
        i
    }
}

/// A run starting at a tag-15 row is non-empty and all tag 15.
pub proof fn lemma_run_end(trace: Seq<[u64; 16]>, i: int)
    requires
        0 <= i,
    ensures
        i <= run_end(trace, i),
        i < trace.len() && trace[i][0] == 15 ==> i < run_end(trace, i),
        run_end(trace, i) <= trace.len() || run_end(trace, i) == i,
        forall|t: int| i <= t < run_end(trace, i) ==> trace[t][0] == 15,
    decreases trace.len() - i,
{
    if 0 <= i < trace.len() && trace[i][0] == 15 {
        lemma_run_end(trace, i + 1);
    }
}

/// The hash blocks from position `i` on, as (start, end) row ranges: the
/// maximal runs of tag-15 rows of length at least two.
pub open spec fn blocks_from(trace: Seq<[u64; 16]>, i: int) -> Seq<(int, int)>
    decreases trace.len() - i,
{
    if i < 0 || i >= trace.len() {
        seq![]
    } else if trace[i][0] != 15 {
        blocks_from(trace, i + 1)
    } else {
        let e = run_end(trace, i);
        proof {
            lemma_run_end(trace, i);
        }
        if e - i < 2 {
            blocks_from(trace, e)
        } else {
            seq![(i, e)] + blocks_from(trace, e)
        }
    }
}

/// The first refusal over blocks `b..`: too few replays, a block that is
/// not 25 rows, or a row that diverges from its replay. `None` if none.
pub open spec fn refusal(trace: Seq<[u64; 16]>, replays: Seq<Seq<[Goldilocks; 16]>>, bl: Seq<(int, int)>, b: int) -> Option<CommitError>
    decreases bl.len() - b,
{
    if b < 0 || b >= bl.len() {
        None
    } else if b >= replays.len() {
        Some(CommitError::TraceOverflow)
    } else if bl[b].1 - bl[b].0 != BLOCK_ROWS {
        Some(CommitError::HashBinding)
    } else if !pairs_hold(block_pairs(replays[b], trace.subrange(bl[b].0, bl[b].1), 25)) {
        Some(CommitError::HashBinding)
    } else {
        refusal(trace, replays, bl, b + 1)
    }
}

/// The pairs of the first `n` blocks, in order.
pub open spec fn all_pairs(trace: Seq<[u64; 16]>, replays: Seq<Seq<[Goldilocks; 16]>>, bl: Seq<(int, int)>, n: int) -> Seq<(nat, nat)>
    decreases n,
{
    if n <= 0 {
        seq![]
    } else {
        all_pairs(trace, replays, bl, n - 1) + block_pairs(replays[n - 1], trace.subrange(bl[n - 1].0, bl[n - 1].1), 25)
    }
}

proof fn lemma_eq_steps_append(
    a: Seq<(CCSInstance, CCSWitness)>,
    pa: Seq<(nat, nat)>,
    b: Seq<(CCSInstance, CCSWitness)>,
    pb: Seq<(nat, nat)>,
)
    requires
        eq_steps_of(a, pa),
        eq_steps_of(b, pb),
    ensures
        eq_steps_of(a + b, pa + pb),
{
    assert forall|i: int| 0 <= i < (a + b).len() implies crate::ccs::verifier_steps::is_eq_instance(&(#[trigger] (a + b)[i]).0)
        && crate::ccs::verifier_steps::step_z((a + b)[i].1, (pa + pb)[i]) by {
        if i >= a.len() {
            assert((a + b)[i] == b[i - a.len()]);
            assert((pa + pb)[i] == pb[i - a.len()]);
        }
    }
}

proof fn lemma_pairs_hold_append(a: Seq<(nat, nat)>, b: Seq<(nat, nat)>)
    ensures
        pairs_hold(a + b) <==> pairs_hold(a) && pairs_hold(b),
{
    if pairs_hold(a + b) {
        assert forall|i: int| 0 <= i < a.len() implies (#[trigger] a[i]).0 == a[i].1 by {
            assert((a + b)[i] == a[i]);
        }
        assert forall|i: int| 0 <= i < b.len() implies (#[trigger] b[i]).0 == b[i].1 by {
            assert((a + b)[i + a.len()] == b[i]);
        }
    }
    if pairs_hold(a) && pairs_hold(b) {
        assert forall|i: int| 0 <= i < (a + b).len() implies (#[trigger] (a + b)[i]).0 == (a + b)[i].1 by {
            if i < a.len() {
                assert((a + b)[i] == a[i]);
            } else {
                assert((a + b)[i] == b[i - a.len()]);
            }
        }
    }
}

/// Register `i` of a row as a field element.
fn reg(row: &[u64; 16], i: usize) -> (g: Goldilocks)
    requires
        i < 16,
    ensures
        g@ == reg_val(*row, i as int),
{
    Goldilocks::new(row[i]).canonicalize()
}

/// The binding steps of one block row against state `st` at round `k`,
/// and whether all of them hold.
fn row_binding_steps(st: &[Goldilocks; 16], row: &[u64; 16], k: u64) -> (r: (Vec<(CCSInstance, CCSWitness)>, bool))
    requires
        k < 25,
    ensures
        eq_steps_of(r.0@, row_pairs(*st, *row, k as nat)),
        r.1 == pairs_hold(row_pairs(*st, *row, k as nat)),
{
    let ghost pairs = row_pairs(*st, *row, k as nat);
    let mut steps: Vec<(CCSInstance, CCSWitness)> = Vec::new();
    let mut ok = true;
    let mut j: usize = 0;
    while j < 9
        invariant
            j <= 9,
            k < 25,
            pairs == row_pairs(*st, *row, k as nat),
            eq_steps_of(steps@, pairs.take(j as int)),
            ok == pairs_hold(pairs.take(j as int)),
        decreases 9 - j,
    {
        let (a, b) = if j < 4 {
            (st[j], reg(row, 4 + j))
        } else if j < 8 {
            (st[j], reg(row, 6 + j))
        } else {
            (Goldilocks::new(k), reg(row, 14))
        };
        proof {
            if j == 8 {
                assert(k < modulus());
                vstd::arithmetic::div_mod::lemma_small_mod(k as nat, modulus());
            }
            assert(pairs[j as int] == (a@, b@));
            assert(seq![pairs[j as int]][0] == pairs[j as int]);
            assert(pairs_hold(seq![pairs[j as int]]) == (a@ == b@));
            lemma_pairs_hold_append(pairs.take(j as int), seq![pairs[j as int]]);
            assert(pairs.take(j + 1) =~= pairs.take(j as int) + seq![pairs[j as int]]);
        }
        ok = ok && a.equals(b);
        steps.push(eq_step(a, b));
        j = j + 1;
    }
    proof {
        assert(pairs.take(9) =~= pairs);
    }
    (steps, ok)
}

/// The binding steps of a whole 25-row block starting at `start`, against
/// the replayed `states`, and whether all of them hold.
fn block_binding_steps(states: &Vec<[Goldilocks; 16]>, trace: &[[u64; 16]], start: usize) -> (r: (Vec<(CCSInstance, CCSWitness)>, bool))
    requires
        states@.len() == 24,
        start + BLOCK_ROWS <= trace@.len(),
    ensures
        eq_steps_of(r.0@, block_pairs(states@, trace@.subrange(start as int, start + 25), 25)),
        r.1 == pairs_hold(block_pairs(states@, trace@.subrange(start as int, start + 25), 25)),
{
    let ghost rows = trace@.subrange(start as int, start + 25);
    let n = trace.len();
    let mut steps: Vec<(CCSInstance, CCSWitness)> = Vec::new();
    let mut ok = true;
    let mut k: usize = 0;
    while k < BLOCK_ROWS
        invariant
            k <= BLOCK_ROWS,
            states@.len() == 24,
            start + BLOCK_ROWS <= trace@.len(),
            n == trace@.len(),
            rows == trace@.subrange(start as int, start + 25),
            eq_steps_of(steps@, block_pairs(states@, rows, k as nat)),
            ok == pairs_hold(block_pairs(states@, rows, k as nat)),
        decreases BLOCK_ROWS - k,
    {
        let st = if k < 24 {
            &states[k]
        } else {
            &states[23]
        };
        let (mut row_steps, row_ok) = row_binding_steps(st, &trace[start + k], k as u64);
        proof {
            assert(rows[k as int] == trace@[start + k]);
            lemma_eq_steps_append(steps@, block_pairs(states@, rows, k as nat), row_steps@, row_pairs(*st, trace@[start + k], k as nat));
            lemma_pairs_hold_append(block_pairs(states@, rows, k as nat), row_pairs(*st, trace@[start + k], k as nat));
        }
        steps.append(&mut row_steps);
        ok = ok && row_ok;
        k = k + 1;
    }
    (steps, ok)
}

/// Equality steps binding every hash block of the trace to the replay of
/// its claimed rate. `replays[b]` is the replay of the `b`-th hash aux (the
/// 24 post-round sponge states); blocks consume replays in trace order.
///
/// `Err(TraceOverflow)` when a block has no replay left,
/// `Err(HashBinding)` when a block is not 25 rows or one of its rows
/// diverges from the replay; the first such block decides.
pub fn build_hash_binding_steps_from_trace(
    trace: &[[u64; 16]],
    replays: &[Vec<[Goldilocks; 16]>],
) -> (r: Result<Vec<(CCSInstance, CCSWitness)>, CommitError>)
    requires
        forall|b: int| 0 <= b < replays@.len() ==> (#[trigger] replays@[b])@.len() == 24,
    ensures
        ({
            let bl = blocks_from(trace@, 0);
            let rs = replays@.map_values(|v: Vec<[Goldilocks; 16]>| v@);
            match refusal(trace@, rs, bl, 0) {
                None => r matches Ok(steps) && eq_steps_of(steps@, all_pairs(trace@, rs, bl, bl.len() as int)),
                Some(e) => r == Err::<Vec<(CCSInstance, CCSWitness)>, CommitError>(e),
            }
        }),
{
    let ghost bl = blocks_from(trace@, 0);
    let ghost rs = replays@.map_values(|v: Vec<[Goldilocks; 16]>| v@);
    let mut steps: Vec<(CCSInstance, CCSWitness)> = Vec::new();
    let mut aux_idx: usize = 0;
    let mut i: usize = 0;
    while i < trace.len()
        invariant
            i <= trace@.len(),
            bl == blocks_from(trace@, 0),
            rs == replays@.map_values(|v: Vec<[Goldilocks; 16]>| v@),
            forall|b: int| 0 <= b < replays@.len() ==> (#[trigger] replays@[b])@.len() == 24,
            aux_idx <= bl.len(),
            bl == bl.take(aux_idx as int) + blocks_from(trace@, i as int),
            refusal(trace@, rs, bl, 0) == refusal(trace@, rs, bl, aux_idx as int),
            eq_steps_of(steps@, all_pairs(trace@, rs, bl, aux_idx as int)),
        decreases trace@.len() - i,
    {
        if trace[i][0] != 15 {
            proof {
                assert(blocks_from(trace@, i as int) == blocks_from(trace@, i + 1));
            }
            i = i + 1;
            continue;
        }
        let block_start = i;
        proof {
            lemma_run_end(trace@, block_start as int);
        }
        while i < trace.len() && trace[i][0] == 15
            invariant
                block_start <= i <= trace@.len(),
                run_end(trace@, block_start as int) == run_end(trace@, i as int),
            decreases trace@.len() - i,
        {
            i = i + 1;
        }
        let ghost e = run_end(trace@, block_start as int);
        assert(e == i);
        if i - block_start < 2 {
            proof {
                assert(blocks_from(trace@, block_start as int) == blocks_from(trace@, i as int));
            }
            continue;
        }
        proof {
            assert(blocks_from(trace@, block_start as int) == seq![(block_start as int, i as int)] + blocks_from(trace@, i as int));
            assert(bl[aux_idx as int] == (block_start as int, i as int));
            assert(bl.take(aux_idx + 1) =~= bl.take(aux_idx as int).push((block_start as int, i as int)));
            assert(bl == bl.take(aux_idx + 1) + blocks_from(trace@, i as int));
        }
        if aux_idx >= replays.len() {
            return Err(CommitError::TraceOverflow);
        }
        let states = &replays[aux_idx];
        aux_idx = aux_idx + 1;
        if i - block_start != BLOCK_ROWS {
            return Err(CommitError::HashBinding);
        }
        let (mut block_steps, ok) = block_binding_steps(states, trace, block_start);
        proof {
            assert(rs[aux_idx - 1] == states@);
            lemma_eq_steps_append(
                steps@,
                all_pairs(trace@, rs, bl, aux_idx - 1),
                block_steps@,
                block_pairs(states@, trace@.subrange(block_start as int, block_start + 25), 25),
            );
        }
        steps.append(&mut block_steps);
        if !ok {
            return Err(CommitError::HashBinding);
        }
    }
    proof {
        assert(blocks_from(trace@, i as int) =~= Seq::<(int, int)>::empty());
        assert(bl.take(aux_idx as int) =~= bl);
    }
    Ok(steps)
}

} // verus!
