//! Tri-kernel iteration and the φ* statement.
//!
//!   D: diffusion  φ' = α·u + (1−α)·T·φ   (T column-stochastic public)
//!   S: springs    s = W_sym · φ ./ deg    (elementwise)
//!   H: heat       h = A · (A · φ) ./ deg² (two SpMVs)
//!   combine       φ_next = normalize(λd·d + λs·s + λh·h)
use crate::execution::statement::{le_bytes, push_le};
use crate::field::{fadd, finv, fmul, fsub, modulus, Goldilocks};
use crate::phi::spmv::{concat96, pad32, padded32, spmv_native, spmv_spec, SparseGraph};
use crate::types::{field_nats, Statement};
use vstd::prelude::*;
use vstd::string::StringSliceAdditionalSpecFns;

verus! {

/// Tri-kernel weights.
#[derive(Clone, Copy, Debug)]
pub struct TriKernelParams {
    pub lambda_d: Goldilocks,
    pub lambda_s: Goldilocks,
    pub lambda_h: Goldilocks,
    /// Teleport mixture for diffusion.
    pub alpha: Goldilocks,
}

/// The standard weights λd = 1/2, λs = 3/10, λh = 1/5, α = 15/100 in F_p.
pub open spec fn is_standard(pr: TriKernelParams) -> bool {
    &&& pr.lambda_d@ == finv(2)
    &&& pr.lambda_s@ == fmul(3, finv(10))
    &&& pr.lambda_h@ == finv(5)
    &&& pr.alpha@ == fmul(15, finv(100))
}

impl TriKernelParams {
    /// Rational weights λd = 1/2, λs = 3/10, λh = 1/5, α = 15/100 via field inversion.
    pub fn standard() -> (pr: TriKernelParams)
        ensures
            is_standard(pr),
    {
        proof {
            vstd::arithmetic::div_mod::lemma_small_mod(2, modulus());
            vstd::arithmetic::div_mod::lemma_small_mod(3, modulus());
            vstd::arithmetic::div_mod::lemma_small_mod(5, modulus());
            vstd::arithmetic::div_mod::lemma_small_mod(10, modulus());
            vstd::arithmetic::div_mod::lemma_small_mod(15, modulus());
            vstd::arithmetic::div_mod::lemma_small_mod(100, modulus());
        }
        TriKernelParams {
            lambda_d: Goldilocks::new(2).inv(),
            lambda_s: Goldilocks::new(3).mul(Goldilocks::new(10).inv()),
            lambda_h: Goldilocks::new(5).inv(),
            alpha: Goldilocks::new(15).mul(Goldilocks::new(100).inv()),
        }
    }
}

impl Default for TriKernelParams {
    fn default() -> (pr: TriKernelParams)
        ensures
            is_standard(pr),
    {
        TriKernelParams::standard()
    }
}

/// Public claim for a φ* proof.
#[derive(Clone, Debug)]
pub struct PhiStatement {
    pub graph_commit: [u8; 32],
    pub phi0_hash: [u8; 32],
    pub phi_star_hash: [u8; 32],
    pub iterations: u32,
    pub n: usize,
}

impl PhiStatement {
    /// The bytes whose hash is the statement's output hash: the graph
    /// commitment, then the φ0 and φ* hashes.
    pub fn output_preimage(&self) -> (r: [u8; 96])
        ensures
            r@ == self.graph_commit@ + self.phi0_hash@ + self.phi_star_hash@,
    {
        concat96(&self.graph_commit, &self.phi0_hash, &self.phi_star_hash)
    }

    /// The zheng statement of this claim, given the hash of `output_preimage`:
    /// the input hash holds the iteration count (4 bytes) and n (8 bytes).
    pub fn to_zheng(&self, output_digest: [u8; 32]) -> (st: Statement)
        ensures
            st.program_hash@ == padded32("zheng-phi-star-v0".spec_bytes()),
            st.input_hash@ == padded32(le_bytes(self.iterations as u64).take(4) + le_bytes(self.n as u64)),
            st.output_hash == output_digest,
            st.focus_bound == self.iterations as u64,
            st.bbg_root@ == padded32(seq![]),
    {
        let mut input: Vec<u8> = Vec::new();
        push_le(&mut input, self.iterations as u64);
        input.truncate(4);
        let ghost it = input@;
        push_le(&mut input, self.n as u64);
        let empty: Vec<u8> = Vec::new();
        proof {
            reveal_strlit("zheng-phi-star-v0");
            assert(vstd::string::is_ascii("zheng-phi-star-v0"));
            vstd::string::is_ascii_spec_bytes("zheng-phi-star-v0");
            assert(it =~= le_bytes(self.iterations as u64).take(4));
        }
        Statement {
            program_hash: pad32("zheng-phi-star-v0".as_bytes()),
            input_hash: pad32(input.as_slice()),
            output_hash: output_digest,
            focus_bound: self.iterations as u64,
            bbg_root: pad32(empty.as_slice()),
        }
    }
}

/// Why a φ* proof was refused.
#[derive(Clone, Copy, Debug, PartialEq, Eq, Structural)]
pub enum PhiError {
    EmptyGraph,
    DimMismatch,
    SpmvFailed,
    NotConverged,
}

/// Σ of field elements, accumulated left to right in F_p.
pub open spec fn field_sum(s: Seq<nat>) -> nat
    decreases s.len(),
{
    if s.len() == 0 {
        0
    } else {
        fadd(field_sum(s.drop_last()), s.last())
    }
}

/// The combined, unnormalized entry i of one tri-kernel step.
pub open spec fn tk_raw(
    phi: Seq<nat>,
    tphi: Seq<nat>,
    wphi: Seq<nat>,
    h2: Seq<nat>,
    degree: Seq<nat>,
    teleport: Seq<nat>,
    pr: TriKernelParams,
    i: int,
) -> nat {
    let a = pr.alpha@;
    let d = fadd(fmul(a, teleport[i]), fmul(fsub(1, a), tphi[i]));
    let s = if degree[i] == 0 {
        phi[i]
    } else {
        fmul(wphi[i], finv(degree[i]))
    };
    let d2 = fmul(degree[i], degree[i]);
    let h = if d2 == 0 {
        phi[i]
    } else {
        fmul(h2[i], finv(d2))
    };
    fadd(fadd(fmul(pr.lambda_d@, d), fmul(pr.lambda_s@, s)), fmul(pr.lambda_h@, h))
}

/// The unnormalized entries of one tri-kernel step.
pub open spec fn tk_raw_all(phi: Seq<nat>, transition: SparseGraph, sym: SparseGraph, degree: Seq<nat>, teleport: Seq<nat>, pr: TriKernelParams) -> Seq<nat> {
    let tphi = spmv_spec(transition, phi);
    let wphi = spmv_spec(sym, phi);
    let h2 = spmv_spec(sym, wphi);
    Seq::new(phi.len(), |i: int| tk_raw(phi, tphi, wphi, h2, degree, teleport, pr, i))
}

/// One tri-kernel step: the combined entries normalized by their sum, or
/// the teleport vector when the sum is zero.
pub open spec fn trikernel_spec(phi: Seq<nat>, transition: SparseGraph, sym: SparseGraph, degree: Seq<nat>, teleport: Seq<nat>, pr: TriKernelParams) -> Seq<nat> {
    let raw = tk_raw_all(phi, transition, sym, degree, teleport, pr);
    let sum = field_sum(raw);
    if sum == 0 {
        teleport
    } else {
        Seq::new(raw.len(), |i: int| fmul(raw[i], finv(sum)))
    }
}

/// `v` divided by the sum of its entries in F_p, or `fallback` when that sum is zero.
pub open spec fn normalized_or(v: Seq<nat>, fallback: Seq<nat>) -> Seq<nat> {
    let sum = field_sum(v);
    if sum == 0 {
        fallback
    } else {
        Seq::new(v.len(), |i: int| fmul(v[i], finv(sum)))
    }
}

/// One step in full: entry i combines diffusion α·u[i] + (1−α)·(T·φ)[i],
/// springs (W·φ)[i] / deg[i] and heat (W·(W·φ))[i] / deg[i]² (each φ[i] where
/// the degree is zero) with weights λd, λs, λh; the vector is normalized by
/// its sum, or is u when that sum is zero.
pub proof fn lemma_trikernel_formula(
    phi: Seq<nat>,
    transition: SparseGraph,
    sym: SparseGraph,
    degree: Seq<nat>,
    teleport: Seq<nat>,
    pr: TriKernelParams,
)
    ensures
        trikernel_spec(phi, transition, sym, degree, teleport, pr) == normalized_or(
            Seq::new(
                phi.len(),
                |i: int|
                    {
                        let a = pr.alpha@;
                        let diffusion = fadd(fmul(a, teleport[i]), fmul(fsub(1, a), spmv_spec(transition, phi)[i]));
                        let springs = if degree[i] == 0 {
                            phi[i]
                        } else {
                            fmul(spmv_spec(sym, phi)[i], finv(degree[i]))
                        };
                        let heat = if fmul(degree[i], degree[i]) == 0 {
                            phi[i]
                        } else {
                            fmul(spmv_spec(sym, spmv_spec(sym, phi))[i], finv(fmul(degree[i], degree[i])))
                        };
                        fadd(fadd(fmul(pr.lambda_d@, diffusion), fmul(pr.lambda_s@, springs)), fmul(pr.lambda_h@, heat))
                    },
            ),
            teleport,
        ),
{
    let raw = tk_raw_all(phi, transition, sym, degree, teleport, pr);
    let expected = Seq::new(
        phi.len(),
        |i: int|
            {
                let a = pr.alpha@;
                let diffusion = fadd(fmul(a, teleport[i]), fmul(fsub(1, a), spmv_spec(transition, phi)[i]));
                let springs = if degree[i] == 0 {
                    phi[i]
                } else {
                    fmul(spmv_spec(sym, phi)[i], finv(degree[i]))
                };
                let heat = if fmul(degree[i], degree[i]) == 0 {
                    phi[i]
                } else {
                    fmul(spmv_spec(sym, spmv_spec(sym, phi))[i], finv(fmul(degree[i], degree[i])))
                };
                fadd(fadd(fmul(pr.lambda_d@, diffusion), fmul(pr.lambda_s@, springs)), fmul(pr.lambda_h@, heat))
            },
    );
    assert(raw =~= expected);
}

/// With the springs and heat kernels switched off (λd = 1, λs = λh = 0), a
/// step is the PageRank update: entry i is α·u[i] + (1−α)·(T·φ)[i], and the
/// vector is normalized by its sum (u itself when that sum is zero).
pub proof fn lemma_trikernel_diffusion(
    phi: Seq<nat>,
    transition: SparseGraph,
    sym: SparseGraph,
    degree: Seq<nat>,
    teleport: Seq<nat>,
    pr: TriKernelParams,
)
    requires
        transition.wf(),
        sym.wf(),
        phi.len() == transition.n,
        phi.len() == sym.n,
        degree.len() >= phi.len(),
        teleport.len() >= phi.len(),
        pr.lambda_d@ == 1,
        pr.lambda_s@ == 0,
        pr.lambda_h@ == 0,
    ensures
        trikernel_spec(phi, transition, sym, degree, teleport, pr) == normalized_or(
            Seq::new(
                phi.len(),
                |i: int| fadd(fmul(pr.alpha@, teleport[i]), fmul(fsub(1, pr.alpha@), spmv_spec(transition, phi)[i])),
            ),
            teleport,
        ),
{
    let a = pr.alpha@;
    let tphi = spmv_spec(transition, phi);
    let raw = tk_raw_all(phi, transition, sym, degree, teleport, pr);
    let d = Seq::new(phi.len(), |i: int| fadd(fmul(a, teleport[i]), fmul(fsub(1, a), tphi[i])));
    assert forall|i: int| 0 <= i < phi.len() implies #[trigger] raw[i] == d[i] by {
        let di = d[i];
        assert(di < modulus());
        vstd::arithmetic::div_mod::lemma_small_mod(di, modulus());
        vstd::arithmetic::div_mod::lemma_small_mod(0, modulus());
        assert(fmul(1, di) == di);
        let wphi = spmv_spec(sym, phi);
        let h2 = spmv_spec(sym, wphi);
        let s = if degree[i] == 0 {
            phi[i]
        } else {
            fmul(wphi[i], finv(degree[i]))
        };
        let d2 = fmul(degree[i], degree[i]);
        let h = if d2 == 0 {
            phi[i]
        } else {
            fmul(h2[i], finv(d2))
        };
        assert(fmul(0, s) == 0);
        assert(fmul(0, h) == 0);
        assert(fadd(di, 0) == di);
        assert(raw[i] == tk_raw(phi, tphi, wphi, h2, degree, teleport, pr, i));
    }
    assert(raw =~= d);
}

/// With only diffusion and no teleport (λd = 1, λs = λh = 0, α = 0), a step
/// is T·φ normalized by its sum (u when that sum is zero).
pub proof fn lemma_trikernel_transition_only(
    phi: Seq<nat>,
    transition: SparseGraph,
    sym: SparseGraph,
    degree: Seq<nat>,
    teleport: Seq<nat>,
    pr: TriKernelParams,
)
    requires
        transition.wf(),
        sym.wf(),
        phi.len() == transition.n,
        phi.len() == sym.n,
        degree.len() >= phi.len(),
        teleport.len() >= phi.len(),
        pr.lambda_d@ == 1,
        pr.lambda_s@ == 0,
        pr.lambda_h@ == 0,
        pr.alpha@ == 0,
    ensures
        trikernel_spec(phi, transition, sym, degree, teleport, pr) == normalized_or(spmv_spec(transition, phi), teleport),
{
    lemma_trikernel_diffusion(phi, transition, sym, degree, teleport, pr);
    crate::phi::spmv::lemma_spmv_canonical(transition, phi);
    let tphi = spmv_spec(transition, phi);
    let d = Seq::new(phi.len(), |i: int| fadd(fmul(0, teleport[i]), fmul(fsub(1, 0), tphi[i])));
    vstd::arithmetic::div_mod::lemma_small_mod(1, modulus());
    vstd::arithmetic::div_mod::lemma_small_mod(0, modulus());
    assert(fsub(1, 0) == 1);
    assert forall|i: int| 0 <= i < phi.len() implies #[trigger] d[i] == tphi[i] by {
        vstd::arithmetic::div_mod::lemma_small_mod(tphi[i], modulus());
        assert(fmul(0, teleport[i]) == 0);
        assert(fmul(1, tphi[i]) == tphi[i]);
    }
    assert(d =~= tphi);
}

/// With only the teleport (λd = 1, λs = λh = 0, α = 1), a step is the
/// teleport vector normalized by its sum, whatever φ and the graphs are.
pub proof fn lemma_trikernel_teleport_only(
    phi: Seq<nat>,
    transition: SparseGraph,
    sym: SparseGraph,
    degree: Seq<nat>,
    teleport: Seq<nat>,
    pr: TriKernelParams,
)
    requires
        transition.wf(),
        sym.wf(),
        phi.len() == transition.n,
        phi.len() == sym.n,
        degree.len() >= phi.len(),
        teleport.len() >= phi.len(),
        forall|i: int| 0 <= i < teleport.len() ==> #[trigger] teleport[i] < modulus(),
        pr.lambda_d@ == 1,
        pr.lambda_s@ == 0,
        pr.lambda_h@ == 0,
        pr.alpha@ == 1,
    ensures
        trikernel_spec(phi, transition, sym, degree, teleport, pr) == normalized_or(teleport.take(phi.len() as int), teleport),
{
    lemma_trikernel_diffusion(phi, transition, sym, degree, teleport, pr);
    let tphi = spmv_spec(transition, phi);
    let d = Seq::new(phi.len(), |i: int| fadd(fmul(1, teleport[i]), fmul(fsub(1, 1), tphi[i])));
    vstd::arithmetic::div_mod::lemma_small_mod(0, modulus());
    vstd::arithmetic::div_mod::lemma_mod_self_0(modulus() as int);
    assert(fsub(1, 1) == 0);
    assert forall|i: int| 0 <= i < phi.len() implies #[trigger] d[i] == teleport.take(phi.len() as int)[i] by {
        vstd::arithmetic::div_mod::lemma_small_mod(teleport[i], modulus());
        assert(fmul(0, tphi[i]) == 0);
        assert(fmul(1, teleport[i]) == teleport[i]);
    }
    assert(d =~= teleport.take(phi.len() as int));
}

/// One tri-kernel step (host). Returns φ_{t+1}.
pub fn trikernel_step(
    phi: &[Goldilocks],
    transition: &SparseGraph,
    sym: &SparseGraph,
    degree: &[Goldilocks],
    teleport: &[Goldilocks],
    params: &TriKernelParams,
) -> (next: Vec<Goldilocks>)
    requires
        transition.wf(),
        sym.wf(),
        phi@.len() == transition.n,
        phi@.len() == sym.n,
        degree@.len() >= phi@.len(),
        teleport@.len() >= phi@.len(),
    ensures
        field_nats(next@) == trikernel_spec(field_nats(phi@), *transition, *sym, field_nats(degree@), field_nats(teleport@), *params),
{
    let n = phi.len();
    let ghost ph = field_nats(phi@);
    let ghost dg = field_nats(degree@);
    let ghost tl = field_nats(teleport@);
    let tphi = spmv_native(transition, phi);
    let wphi = spmv_native(sym, phi);
    let h1 = spmv_native(sym, phi);
    let h2 = spmv_native(sym, h1.as_slice());
    let ghost raw_spec = tk_raw_all(ph, *transition, *sym, dg, tl, *params);
    let one_minus = Goldilocks::one().sub(params.alpha);
    let mut raw: Vec<Goldilocks> = Vec::new();
    let mut sum = Goldilocks::zero();
    let mut i: usize = 0;
    while i < n
        invariant
            i <= n,
            n == phi@.len(),
            ph == field_nats(phi@),
            dg == field_nats(degree@),
            tl == field_nats(teleport@),
            degree@.len() >= n,
            teleport@.len() >= n,
            field_nats(tphi@) == spmv_spec(*transition, ph),
            field_nats(wphi@) == spmv_spec(*sym, ph),
            field_nats(h1@) == spmv_spec(*sym, ph),
            field_nats(h2@) == spmv_spec(*sym, field_nats(h1@)),
            tphi@.len() == n,
            wphi@.len() == n,
            h2@.len() == n,
            one_minus@ == fsub(1, params.alpha@),
            raw_spec == tk_raw_all(ph, *transition, *sym, dg, tl, *params),
            raw@.len() == i,
            forall|j: int| 0 <= j < i ==> #[trigger] raw@[j]@ == raw_spec[j],
            sum@ == field_sum(field_nats(raw@)),
        decreases n - i,
    {
        let d = params.alpha.mul(teleport[i]).add(one_minus.mul(tphi[i]));
        let s = if degree[i].is_zero() {
            phi[i]
        } else {
            wphi[i].mul(degree[i].inv())
        };
        let d2 = degree[i].mul(degree[i]);
        let h = if d2.is_zero() {
            phi[i]
        } else {
            h2[i].mul(d2.inv())
        };
        let v = params.lambda_d.mul(d).add(params.lambda_s.mul(s)).add(params.lambda_h.mul(h));
        proof {
            assert(field_nats(tphi@)[i as int] == tphi@[i as int]@);
            assert(field_nats(wphi@)[i as int] == wphi@[i as int]@);
            assert(field_nats(h2@)[i as int] == h2@[i as int]@);
            assert(ph[i as int] == phi@[i as int]@);
            assert(dg[i as int] == degree@[i as int]@);
            assert(tl[i as int] == teleport@[i as int]@);
            assert(v@ == raw_spec[i as int]);
        }
        let ghost old_raw = raw@;
        raw.push(v);
        sum = sum.add(v);
        proof {
            assert(field_nats(raw@).drop_last() =~= field_nats(old_raw));
            assert(field_nats(raw@).last() == v@);
        }
        i = i + 1;
    }
    proof {
        assert(field_nats(raw@) =~= raw_spec);
    }
    if sum.is_zero() {
        let mut out: Vec<Goldilocks> = Vec::new();
        let mut k: usize = 0;
        while k < teleport.len()
            invariant
                k <= teleport@.len(),
                out@ == teleport@.take(k as int),
            decreases teleport@.len() - k,
        {
            out.push(teleport[k]);
            proof {
                assert(teleport@.take(k + 1) =~= teleport@.take(k as int).push(teleport@[k as int]));
            }
            k = k + 1;
        }
        proof {
            assert(teleport@.take(teleport@.len() as int) =~= teleport@);
        }
        return out;
    }
    let inv_sum = sum.inv();
    let mut out: Vec<Goldilocks> = Vec::new();
    let mut k: usize = 0;
    while k < n
        invariant
            k <= n,
            raw@.len() == n,
            field_nats(raw@) == raw_spec,
            inv_sum@ == finv(field_sum(raw_spec)),
            out@.len() == k,
            forall|j: int| 0 <= j < k ==> #[trigger] out@[j]@ == fmul(raw_spec[j], finv(field_sum(raw_spec))),
        decreases n - k,
    {
        proof {
            assert(field_nats(raw@)[k as int] == raw@[k as int]@);
        }
        out.push(raw[k].mul(inv_sum));
        k = k + 1;
    }
    proof {
        assert(field_nats(out@) =~= Seq::new(raw_spec.len(), |i: int| fmul(raw_spec[i], finv(field_sum(raw_spec)))));
    }
    out
}

/// The pseudo-absolute difference of two field elements: the smaller
/// canonical representative of x − y and y − x.
pub open spec fn pseudo_abs(x: nat, y: nat) -> nat {
    let d1 = fsub(x, y);
    let d2 = fsub(y, x);
    if d1 < d2 {
        d1
    } else {
        d2
    }
}

/// Σ of pseudo-absolute differences over the first `k` paired entries.
pub open spec fn l1_acc(a: Seq<nat>, b: Seq<nat>, k: nat) -> nat
    decreases k,
{
    if k == 0 {
        0
    } else {
        fadd(l1_acc(a, b, (k - 1) as nat), pseudo_abs(a[k - 1], b[k - 1]))
    }
}

/// L1 distance over the common prefix of `a` and `b`.
pub fn l1_dist(a: &[Goldilocks], b: &[Goldilocks]) -> (d: Goldilocks)
    ensures
        d@ == l1_acc(field_nats(a@), field_nats(b@), if a@.len() < b@.len() { a@.len() } else { b@.len() }),
{
    let n = if a.len() < b.len() {
        a.len()
    } else {
        b.len()
    };
    let mut s = Goldilocks::zero();
    let mut i: usize = 0;
    while i < n
        invariant
            i <= n,
            n <= a@.len(),
            n <= b@.len(),
            s@ == l1_acc(field_nats(a@), field_nats(b@), i as nat),
        decreases n - i,
    {
        let d1 = a[i].sub(b[i]);
        let d2 = b[i].sub(a[i]);
        let v = if d1.as_u64() < d2.as_u64() {
            d1
        } else {
            d2
        };
        proof {
            assert(field_nats(a@)[i as int] == a@[i as int]@);
            assert(field_nats(b@)[i as int] == b@[i as int]@);
        }
        s = s.add(v);
        i = i + 1;
    }
    s
}

} // verus!
