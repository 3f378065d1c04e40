//! Bindings of state look rows (pattern 17) to their openings: the opened
//! value, the evaluation point, the dimension leaf, and the root recomputed
//! from the leaves, each against the registers the row recorded.
use crate::ccs::root::RootLeaves;
use crate::ccs::selector::{eval_row, is_satisfied};
use crate::ccs::verifier_steps::{eq_step, is_eq_instance, limb, read_limb, step_z, verifier_steps, vsteps_pairs, OpeningView};
use crate::field::{modulus, Goldilocks};
use crate::types::{CCSInstance, CCSWitness, CommitError};
use vstd::arithmetic::power2::pow2;
use vstd::prelude::*;

verus! {

/// All data the prover supplies to verify one look opening.
pub struct LookOpening {
    /// Commitment to the dimension polynomial.
    pub commitment: [u8; 32],
    /// Evaluation point: the bits of the cell index.
    pub point: Vec<Goldilocks>,
    /// Claimed polynomial value at that point.
    pub value: Goldilocks,
    /// What the equality rows read of the opening proof.
    pub opening: OpeningView,
    /// Bytes the opening transcript was seeded with.
    pub transcript_seed: Vec<u8>,
    /// The 14 leaves of the root preimage.
    pub leaves: RootLeaves,
    /// The namespace of this opening: an index into `leaves.dims`.
    pub namespace: Goldilocks,
}

/// The compression rows of one root chain over an opening's leaves, and
/// the root they arrive at.
pub struct RootChain {
    pub steps: Vec<(CCSInstance, CCSWitness)>,
    pub root: [Goldilocks; 4],
}

/// One expected step: a binding of two values, or a given step.
pub enum StepSpec {
    Eq(nat, nat),
    Given(CCSInstance, CCSWitness),
}

/// The steps are, in order, the expected ones.
pub open spec fn steps_match(steps: Seq<(CCSInstance, CCSWitness)>, spec: Seq<StepSpec>) -> bool {
    &&& steps.len() == spec.len()
    &&& forall|i: int|
        0 <= i < steps.len() ==> match #[trigger] spec[i] {
            StepSpec::Eq(a, b) => is_eq_instance(&steps[i].0) && step_z(steps[i].1, (a, b)),
            StepSpec::Given(u, w) => steps[i] == (u, w),
        }
}

/// Bindings of the pairs.
pub open spec fn eqs(pairs: Seq<(nat, nat)>) -> Seq<StepSpec> {
    Seq::new(pairs.len(), |i: int| StepSpec::Eq(pairs[i].0, pairs[i].1))
}

/// Given steps.
pub open spec fn givens(steps: Seq<(CCSInstance, CCSWitness)>) -> Seq<StepSpec> {
    Seq::new(steps.len(), |i: int| StepSpec::Given(steps[i].0, steps[i].1))
}

/// Register `i` of a row, reduced.
pub open spec fn reg(row: [u64; 16], i: int) -> nat {
    row[i] as nat % modulus()
}

/// The pairs that bind a look row to its opening before the root chain:
/// the opening's own rows, the value against r7, each point coordinate
/// against the bit of the cell index r6, and the namespace leaf against the
/// commitment limbs.
pub open spec fn head_pairs(row: [u64; 16], lo: LookOpening) -> Seq<(nat, nat)> {
    let leaf = lo.leaves.dims@[row[5] as int];
    vsteps_pairs(lo.commitment@, lo.value@, lo.opening) + seq![(lo.value@, reg(row, 7))]
        + Seq::new(lo.point@.len(), |j: int| (lo.point@[j]@, (row[6] as nat / pow2(j as nat)) % 2))
        + Seq::new(4, |k: int| (leaf@[k]@, limb(lo.commitment@, k)))
}

/// The pairs that bind the recomputed root to r4, r11, r12, r13.
pub open spec fn root_pairs(row: [u64; 16], root: [Goldilocks; 4]) -> Seq<(nat, nat)> {
    seq![(root@[0]@, reg(row, 4)), (root@[1]@, reg(row, 11)), (root@[2]@, reg(row, 12)), (root@[3]@, reg(row, 13))]
}

/// Both sides of every pair are equal.
pub open spec fn pairs_hold(ps: Seq<(nat, nat)>) -> bool {
    forall|i: int| 0 <= i < ps.len() ==> (#[trigger] ps[i]).0 == ps[i].1
}

/// Every step of the chain is satisfied.
pub open spec fn chain_holds(steps: Seq<(CCSInstance, CCSWitness)>) -> bool {
    forall|i: int|
        0 <= i < steps.len() ==> forall|r: int| 0 <= r < (#[trigger] steps[i]).0.num_rows ==> #[trigger] eval_row(&steps[i].0, steps[i].1.z@, r) == 0
}

/// Some root of `seen` has the limbs of `root`.
pub open spec fn has_root(seen: Seq<[Goldilocks; 4]>, root: [Goldilocks; 4]) -> bool {
    exists|j: int| 0 <= j < seen.len() && (#[trigger] seen[j])@ == root@
}

/// The first refusal from trace row `t` on, with `k` look rows already
/// bound and the roots whose chains are already in the steps.
pub open spec fn look_refusal(
    trace: Seq<[u64; 16]>,
    openings: Seq<LookOpening>,
    chains: Seq<RootChain>,
    t: int,
    k: int,
    seen: Seq<[Goldilocks; 4]>,
) -> Option<CommitError>
    decreases trace.len() - t,
{
    if t < 0 || t >= trace.len() {
        None
    } else if trace[t][0] != 17 {
        look_refusal(trace, openings, chains, t + 1, k, seen)
    } else if k < 0 || k >= openings.len() {
        Some(CommitError::TraceOverflow)
    } else if trace[t][5] >= 11 {
        Some(CommitError::LookBinding)
    } else {
        let root = chains[k].root;
        let new = !has_root(seen, root);
        if !pairs_hold(head_pairs(trace[t], openings[k]) + root_pairs(trace[t], root)) || (new && !chain_holds(chains[k].steps@)) {
            Some(CommitError::LookBinding)
        } else {
            look_refusal(trace, openings, chains, t + 1, k + 1, if new { seen.push(root) } else { seen })
        }
    }
}

/// The steps of the look rows from trace row `t` on (when none is refused).
pub open spec fn look_steps(
    trace: Seq<[u64; 16]>,
    openings: Seq<LookOpening>,
    chains: Seq<RootChain>,
    t: int,
    k: int,
    seen: Seq<[Goldilocks; 4]>,
) -> Seq<StepSpec>
    decreases trace.len() - t,
{
    if t < 0 || t >= trace.len() {
        seq![]
    } else if trace[t][0] != 17 {
        look_steps(trace, openings, chains, t + 1, k, seen)
    } else {
        let root = chains[k].root;
        let new = !has_root(seen, root);
        eqs(head_pairs(trace[t], openings[k])) + (if new { givens(chains[k].steps@) } else { seq![] }) + eqs(root_pairs(trace[t], root))
            + look_steps(trace, openings, chains, t + 1, k + 1, if new { seen.push(root) } else { seen })
    }
}

proof fn lemma_steps_match_append(a: Seq<(CCSInstance, CCSWitness)>, sa: Seq<StepSpec>, b: Seq<(CCSInstance, CCSWitness)>, sb: Seq<StepSpec>)
    requires
        steps_match(a, sa),
        steps_match(b, sb),
    ensures
        steps_match(a + b, sa + sb),
{
    assert forall|i: int| 0 <= i < (a + b).len() implies match #[trigger] (sa + sb)[i] {
        StepSpec::Eq(x, y) => is_eq_instance(&(a + b)[i].0) && step_z((a + b)[i].1, (x, y)),
        StepSpec::Given(u, w) => (a + b)[i] == (u, w),
    } by {
        if i < a.len() {
            assert((a + b)[i] == a[i] && (sa + sb)[i] == sa[i]);
        } else {
            assert((a + b)[i] == b[i - a.len()] && (sa + sb)[i] == sb[i - a.len()]);
        }
    }
}

/// Append the binding of `a` and `b`, and whether they are equal.
fn bind(steps: &mut Vec<(CCSInstance, CCSWitness)>, a: Goldilocks, b: Goldilocks, Ghost(spec): Ghost<Seq<StepSpec>>) -> (eq: bool)
    requires
        steps_match(old(steps)@, spec),
    ensures
        steps_match(final(steps)@, spec.push(StepSpec::Eq(a@, b@))),
        eq == (a@ == b@),
{
    let s = eq_step(a, b);
    let ghost old_steps = steps@;
    steps.push(s);
    proof {
        let n = old_steps.len();
        assert forall|i: int| 0 <= i < steps@.len() implies match #[trigger] spec.push(StepSpec::Eq(a@, b@))[i] {
            StepSpec::Eq(x, y) => is_eq_instance(&steps@[i].0) && step_z(steps@[i].1, (x, y)),
            StepSpec::Given(u, w) => steps@[i] == (u, w),
        } by {
            if i < n {
                assert(steps@[i] == old_steps[i]);
                assert(spec.push(StepSpec::Eq(a@, b@))[i] == spec[i]);
            }
        }
    }
    a.equals(b)
}

proof fn lemma_eqs_push(pairs: Seq<(nat, nat)>, pr: (nat, nat))
    ensures
        eqs(pairs.push(pr)) == eqs(pairs).push(StepSpec::Eq(pr.0, pr.1)),
{
    assert(eqs(pairs.push(pr)) =~= eqs(pairs).push(StepSpec::Eq(pr.0, pr.1)));
}

proof fn lemma_hold_push(pairs: Seq<(nat, nat)>, pr: (nat, nat))
    ensures
        pairs_hold(pairs.push(pr)) == (pairs_hold(pairs) && pr.0 == pr.1),
{
    if pairs_hold(pairs.push(pr)) {
        assert forall|i: int| 0 <= i < pairs.len() implies (#[trigger] pairs[i]).0 == pairs[i].1 by {
            assert(pairs.push(pr)[i] == pairs[i]);
        }
        assert(pairs.push(pr)[pairs.len() as int] == pr);
    }
}

/// Whether `roots` holds `root`.
fn holds_root(roots: &Vec<[Goldilocks; 4]>, root: &[Goldilocks; 4]) -> (b: bool)
    ensures
        b == has_root(roots@, *root),
{
    let mut i: usize = 0;
    while i < roots.len()
        invariant
            i <= roots@.len(),
            forall|j: int| 0 <= j < i ==> (#[trigger] roots@[j])@ != root@,
        decreases roots@.len() - i,
    {
        let r = &roots[i];
        let mut same = true;
        let mut q: usize = 0;
        while q < 4
            invariant
                q <= 4,
                same == (forall|x: int| 0 <= x < q ==> r@[x] == root@[x]),
            decreases 4 - q,
        {
            proof {
                crate::field::lemma_view_injective(r@[q as int], root@[q as int]);
            }
            if !r[q].equals(root[q]) {
                same = false;
            }
            q = q + 1;
        }
        if same {
            proof {
                assert(r@ =~= root@);
                assert(roots@[i as int]@ == root@);
            }
            return true;
        }
        i = i + 1;
    }
    false
}

/// Chains whose instances can be evaluated.
pub open spec fn chains_wf(chains: Seq<RootChain>) -> bool {
    forall|k: int, i: int|
        0 <= k < chains.len() && 0 <= i < chains[k].steps@.len() ==> (#[trigger] chains[k].steps@[i]).0.matrices@.len() > 0
            ==> chains[k].steps@[i].0.wf()
}

/// Append the steps of `vs`, the opening's own binding rows, and whether
/// all of them hold.
fn append_opening_rows(
    steps: &mut Vec<(CCSInstance, CCSWitness)>,
    lo: &LookOpening,
    Ghost(spec): Ghost<Seq<StepSpec>>,
) -> (ok: bool)
    requires
        steps_match(old(steps)@, spec),
    ensures
        steps_match(final(steps)@, spec + eqs(vsteps_pairs(lo.commitment@, lo.value@, lo.opening))),
        ok == pairs_hold(vsteps_pairs(lo.commitment@, lo.value@, lo.opening)),
{
    let mut vs = verifier_steps(&lo.commitment, lo.point.as_slice(), lo.value, &lo.opening);
    let ghost pairs = vsteps_pairs(lo.commitment@, lo.value@, lo.opening);
    let mut ok = true;
    let mut i: usize = 0;
    while i < vs.len()
        invariant
            i <= vs@.len(),
            crate::ccs::verifier_steps::eq_steps_of(vs@, pairs),
            ok == (forall|j: int| 0 <= j < i ==> (#[trigger] pairs[j]).0 == pairs[j].1),
        decreases vs@.len() - i,
    {
        let w = &vs[i].1;
        proof {
            assert(step_z(vs@[i as int].1, pairs[i as int]));
        }
        if !w.z[0].equals(w.z[1]) {
            ok = false;
        }
        i = i + 1;
    }
    proof {
        assert forall|j: int| 0 <= j < vs@.len() implies match #[trigger] eqs(pairs)[j] {
            StepSpec::Eq(a, b) => is_eq_instance(&vs@[j].0) && step_z(vs@[j].1, (a, b)),
            StepSpec::Given(u, w) => vs@[j] == (u, w),
        } by {
            assert(eqs(pairs)[j] == StepSpec::Eq(pairs[j].0, pairs[j].1));
        }
        lemma_steps_match_append(steps@, spec, vs@, eqs(pairs));
    }
    steps.append(&mut vs);
    ok
}

/// Binding steps for every look row (tag 17) of the trace with the
/// matching opening (parallel, in order of the look rows) and the root
/// chain of that opening's leaves: the opening's rows, the value against
/// r7, the point against the bits of r6, the namespace leaf (r5) against the
/// commitment, the chain's rows the first time its root appears, and the
/// root against r4, r11, r12, r13.
///
/// `Err(TraceOverflow)` when a look row has no opening left,
/// `Err(LookBinding)` when the namespace is out of range or a binding or
/// chain row of the look does not hold; the first such row decides.
pub fn build_look_steps_from_trace(
    trace: &[[u64; 16]],
    openings: &[LookOpening],
    chains: Vec<RootChain>,
) -> (r: Result<Vec<(CCSInstance, CCSWitness)>, CommitError>)
    requires
        chains@.len() == openings@.len(),
        forall|k: int| 0 <= k < openings@.len() ==> (#[trigger] openings@[k]).point@.len() <= 64,
        chains_wf(chains@),
    ensures
        match look_refusal(trace@, openings@, chains@, 0, 0, seq![]) {
            None => r matches Ok(steps) && steps_match(steps@, look_steps(trace@, openings@, chains@, 0, 0, seq![])),
            Some(e) => r == Err::<Vec<(CCSInstance, CCSWitness)>, CommitError>(e),
        },
{
    let ghost orig = chains@;
    let mut pending = chains;
    let mut rev: Vec<RootChain> = Vec::new();
    while pending.len() > 0
        invariant
            pending@.len() + rev@.len() == orig.len(),
            pending@ == orig.take(pending@.len() as int),
            forall|i: int| 0 <= i < rev@.len() ==> #[trigger] rev@[i] == orig[orig.len() - 1 - i],
        decreases pending@.len(),
    {
        let c = pending.pop().unwrap();
        rev.push(c);
    }
    let mut steps: Vec<(CCSInstance, CCSWitness)> = Vec::new();
    let mut chained: Vec<[Goldilocks; 4]> = Vec::new();
    let mut opening_idx: usize = 0;
    let ghost mut prefix: Seq<StepSpec> = seq![];
    let mut t: usize = 0;
    while t < trace.len()
        invariant
            t <= trace@.len(),
            opening_idx <= openings@.len(),
            orig.len() == openings@.len(),
            orig == chains@,
            rev@.len() == orig.len() - opening_idx,
            forall|i: int| 0 <= i < rev@.len() ==> #[trigger] rev@[i] == orig[orig.len() - 1 - i],
            forall|k: int| 0 <= k < openings@.len() ==> (#[trigger] openings@[k]).point@.len() <= 64,
            chains_wf(orig),
            look_refusal(trace@, openings@, orig, 0, 0, seq![]) == look_refusal(trace@, openings@, orig, t as int, opening_idx as int, chained@),
            look_steps(trace@, openings@, orig, 0, 0, seq![]) == prefix + look_steps(trace@, openings@, orig, t as int, opening_idx as int, chained@),
            steps_match(steps@, prefix),
        decreases trace@.len() - t,
    {
        let row = &trace[t];
        if row[0] != 17 {
            t = t + 1;
            continue;
        }
        if opening_idx >= openings.len() {
            return Err(CommitError::TraceOverflow);
        }
        let lo = &openings[opening_idx];
        if row[5] >= 11 {
            return Err(CommitError::LookBinding);
        }
        let ghost k = opening_idx as int;
        let ghost seen = chained@;
        let ghost head = head_pairs(*row, *lo);
        let ghost p0 = prefix;
        // the opening's own rows
        let mut ok = append_opening_rows(&mut steps, lo, Ghost(prefix));
        let ghost vp = vsteps_pairs(lo.commitment@, lo.value@, lo.opening);
        let ghost mut done: Seq<(nat, nat)> = vp;
        proof {
            prefix = p0 + eqs(vp);
        }
        // the value nox used
        let e = bind(&mut steps, lo.value, Goldilocks::new(row[7]), Ghost(prefix));
        proof {
            lemma_eqs_push(done, (lo.value@, reg(*row, 7)));
            lemma_hold_push(done, (lo.value@, reg(*row, 7)));
            assert(p0 + eqs(done) + seq![StepSpec::Eq(lo.value@, reg(*row, 7))] =~= p0 + eqs(done.push((lo.value@, reg(*row, 7)))));
            done = done.push((lo.value@, reg(*row, 7)));
            prefix = p0 + eqs(done);
        }
        ok = ok && e;
        // the point is the corner of the cell index nox read
        let idx = row[6];
        let mut rest: u64 = idx;
        let mut j: usize = 0;
        proof {
            vstd::arithmetic::power2::lemma2_to64();
        }
        while j < lo.point.len()
            invariant
                j <= lo.point@.len(),
                lo.point@.len() <= 64,
                rest as nat == idx as nat / pow2(j as nat),
                done == vp + seq![(lo.value@, reg(*row, 7))] + Seq::new(j as nat, |q: int| (lo.point@[q]@, (idx as nat / pow2(q as nat)) % 2)),
                prefix == p0 + eqs(done),
                steps_match(steps@, prefix),
                ok == pairs_hold(done),
            decreases lo.point@.len() - j,
        {
            let bit = Goldilocks::new(rest % 2);
            proof {
                vstd::arithmetic::div_mod::lemma_small_mod((rest % 2) as nat, modulus());
            }
            let e = bind(&mut steps, lo.point[j], bit, Ghost(prefix));
            proof {
                let pr = (lo.point@[j as int]@, (idx as nat / pow2(j as nat)) % 2);
                lemma_eqs_push(done, pr);
                lemma_hold_push(done, pr);
                assert(prefix.push(StepSpec::Eq(pr.0, pr.1)) =~= p0 + eqs(done.push(pr)));
                done = done.push(pr);
                prefix = p0 + eqs(done);
                assert(done == vp + seq![(lo.value@, reg(*row, 7))] + Seq::new((j + 1) as nat, |q: int| (lo.point@[q]@, (idx as nat / pow2(q as nat)) % 2)));
                vstd::arithmetic::power2::lemma_pow2_pos(j as nat);
                vstd::arithmetic::power2::lemma_pow2_unfold((j + 1) as nat);
                vstd::arithmetic::div_mod::lemma_div_denominator(idx as int, pow2(j as nat) as int, 2);
            }
            ok = ok && e;
            rest = rest / 2;
            j = j + 1;
        }
        // the opened commitment is the leaf of the namespace nox read
        let leaf = lo.leaves.dims[row[5] as usize];
        let mut q: usize = 0;
        while q < 4
            invariant
                q <= 4,
                leaf == lo.leaves.dims@[row[5] as int],
                done == vp + seq![(lo.value@, reg(*row, 7))] + Seq::new(lo.point@.len(), |q: int| (lo.point@[q]@, (idx as nat / pow2(q as nat)) % 2))
                    + Seq::new(q as nat, |x: int| (leaf@[x]@, limb(lo.commitment@, x))),
                prefix == p0 + eqs(done),
                steps_match(steps@, prefix),
                ok == pairs_hold(done),
            decreases 4 - q,
        {
            let c = read_limb(&lo.commitment, q);
            let e = bind(&mut steps, leaf[q], c, Ghost(prefix));
            proof {
                let pr = (leaf@[q as int]@, limb(lo.commitment@, q as int));
                lemma_eqs_push(done, pr);
                lemma_hold_push(done, pr);
                assert(prefix.push(StepSpec::Eq(pr.0, pr.1)) =~= p0 + eqs(done.push(pr)));
                done = done.push(pr);
                prefix = p0 + eqs(done);
                assert(done == vp + seq![(lo.value@, reg(*row, 7))] + Seq::new(lo.point@.len(), |q: int| (lo.point@[q]@, (idx as nat / pow2(q as nat)) % 2))
                    + Seq::new((q + 1) as nat, |x: int| (leaf@[x]@, limb(lo.commitment@, x))));
            }
            ok = ok && e;
            q = q + 1;
        }
        proof {
            assert(done =~= head);
        }
        // the root chain, the first time its root appears
        let chain = rev.pop().unwrap();
        proof {
            assert(chain == orig[k]);
        }
        let root = chain.root;
        let new = !holds_root(&chained, &root);
        let ghost p1 = prefix;
        if new {
            let mut cs = chain.steps;
            let mut i: usize = 0;
            while i < cs.len()
                invariant
                    i <= cs@.len(),
                    cs@ == orig[k].steps@,
                    chains_wf(orig),
                    0 <= k < orig.len(),
                    ok == (pairs_hold(head) && forall|x: int| 0 <= x < i ==> forall|r: int|
                        0 <= r < (#[trigger] cs@[x]).0.num_rows ==> #[trigger] eval_row(&cs@[x].0, cs@[x].1.z@, r) == 0),
                decreases cs@.len() - i,
            {
                proof {
                    assert(cs@[i as int] == orig[k].steps@[i as int]);
                }
                let sat = is_satisfied(&cs[i].0, &cs[i].1);
                ok = ok && sat;
                i = i + 1;
            }
            proof {
                assert forall|x: int| 0 <= x < cs@.len() implies match #[trigger] givens(cs@)[x] {
                    StepSpec::Eq(a, b) => is_eq_instance(&cs@[x].0) && step_z(cs@[x].1, (a, b)),
                    StepSpec::Given(u, w) => cs@[x] == (u, w),
                } by {}
                lemma_steps_match_append(steps@, prefix, cs@, givens(cs@));
                prefix = p1 + givens(cs@);
            }
            steps.append(&mut cs);
            chained.push(root);
        }
        let ghost p2 = prefix;
        let ghost mut rdone: Seq<(nat, nat)> = seq![];
        let regs: [usize; 4] = [4, 11, 12, 13];
        let mut q: usize = 0;
        proof {
            assert(eqs(rdone) =~= seq![]);
            assert(p2 + eqs(rdone) =~= p2);
        }
        while q < 4
            invariant
                q <= 4,
                regs@ == seq![4usize, 11, 12, 13],
                rdone == root_pairs(*row, root).take(q as int),
                prefix == p2 + eqs(rdone),
                steps_match(steps@, prefix),
                ok == (pairs_hold(head) && pairs_hold(rdone) && (new ==> chain_holds(orig[k].steps@))),
            decreases 4 - q,
        {
            let e = bind(&mut steps, root[q], Goldilocks::new(row[regs[q]]), Ghost(prefix));
            proof {
                let pr = root_pairs(*row, root)[q as int];
                assert(pr == (root@[q as int]@, reg(*row, regs@[q as int] as int)));
                lemma_eqs_push(rdone, pr);
                lemma_hold_push(rdone, pr);
                assert(prefix.push(StepSpec::Eq(pr.0, pr.1)) =~= p2 + eqs(rdone.push(pr)));
                assert(root_pairs(*row, root).take(q + 1) =~= rdone.push(pr));
                rdone = rdone.push(pr);
                prefix = p2 + eqs(rdone);
            }
            ok = ok && e;
            q = q + 1;
        }
        proof {
            assert(root_pairs(*row, root).take(4) =~= root_pairs(*row, root));
            assert(pairs_hold(head + root_pairs(*row, root)) == (pairs_hold(head) && pairs_hold(root_pairs(*row, root)))) by {
                let h = head;
                let rp = root_pairs(*row, root);
                if pairs_hold(h + rp) {
                    assert forall|i: int| 0 <= i < h.len() implies (#[trigger] h[i]).0 == h[i].1 by {
                        assert((h + rp)[i] == h[i]);
                    }
                    assert forall|i: int| 0 <= i < rp.len() implies (#[trigger] rp[i]).0 == rp[i].1 by {
                        assert((h + rp)[h.len() + i] == rp[i]);
                    }
                }
            }
        }
        if !ok {
            return Err(CommitError::LookBinding);
        }
        proof {
            assert(prefix =~= p0 + (eqs(head) + (if new { givens(orig[k].steps@) } else { seq![] }) + eqs(root_pairs(*row, root))));
        }
        opening_idx = opening_idx + 1;
        t = t + 1;
    }
    proof {
        assert(look_steps(trace@, openings@, orig, t as int, opening_idx as int, chained@) =~= seq![]);
        assert(prefix + seq![] =~= prefix);
    }
    Ok(steps)
}

} // verus!
