//! Bit decompositions, unsigned ordering and 32-bit word gadgets of the
//! execution relation.
use crate::execution::relation::RelationError;
use crate::execution::relation_builder::{lemma_value_mono, lemma_value_mono_auto, Builder, Op, Value};
use crate::execution::tagged::builder::{clone_linear, lin_ok, Linear};
use crate::field::Goldilocks;
use vstd::prelude::*;

verus! {

broadcast use lemma_value_mono_auto;

/// Every value of `s` reads only wires below `n`.
pub open spec fn values_ok(s: Seq<Value>, n: nat) -> bool {
    forall|i: int| 0 <= i < s.len() ==> (#[trigger] s[i]).ok(n)
}

/// Every value of `s` is an atom (a constant or a wire).
pub open spec fn atoms(s: Seq<Value>) -> bool {
    forall|i: int| 0 <= i < s.len() ==> !((#[trigger] s[i]) is Pair)
}

/// Values below `a` stay below a larger bound.
pub proof fn lemma_values_mono(s: Seq<Value>, a: nat, b: nat)
    requires
        values_ok(s, a),
        a <= b,
    ensures
        values_ok(s, b),
{
    assert forall|i: int| 0 <= i < s.len() implies (#[trigger] s[i]).ok(b) by {
        lemma_value_mono(&s[i], a, b);
    }
}

/// The common postcondition of the gadgets: the builder stays well formed,
/// grows with the same evaluation count, and keeps its activity.
pub open spec fn gadget_ok(b: &Builder, old: &Builder) -> bool {
    &&& b.wf()
    &&& b.fixed(old)
    &&& b.active == old.active
}

impl Builder {
    /// `n` boolean wires that recompose the atom `v`; for 64 bits, the
    /// decomposition is also canonical (below p).
    pub fn bits(&mut self, v: &Value, n: usize) -> (res: Result<Vec<Value>, RelationError>)
        requires
            old(self).wf(),
            v.ok(old(self).next()),
            n == 32 || n == 64,
        ensures
            res is Err ==> res->Err_0 is Limit || res->Err_0 is Unsupported,
            res is Ok ==> {
                &&& gadget_ok(final(self), old(self))
                &&& res->Ok_0@.len() == n
                &&& values_ok(res->Ok_0@, final(self).next())
                &&& atoms(res->Ok_0@)
            },
    {
        let ghost start = *self;
        let source = self.linear(v)?;
        let mut bits: Vec<Value> = Vec::new();
        let mut sum: Linear = Vec::new();
        let mut k: usize = 0;
        while k < n
            invariant
                self.wf(),
                self.fixed(&start),
                self.active == start.active,
                k <= n,
                n == 32 || n == 64,
                bits@.len() == k,
                lin_ok(source@, self.next()),
                lin_ok(sum@, self.next()),
                values_ok(bits@, self.next()),
                atoms(bits@),
            decreases n - k,
        {
            let ghost before = *self;
            let i = self.wire(Op::Bit(clone_linear(&source), k))?;
            self.row(vec![(i, Goldilocks::one())], vec![(0usize, Goldilocks::one()), (i, Goldilocks::one().neg())], Vec::new());
            sum.push((i, Goldilocks::new(1u64 << (k as u64))));
            proof {
                lemma_values_mono(bits@, before.next(), self.next());
            }
            bits.push(Value::Wire(i));
            k = k + 1;
        }
        self.row(sum, vec![(0usize, Goldilocks::one())], source);
        if n == 64 {
            let mut all_high = Value::Constant(Goldilocks::one());
            let mut j: usize = 32;
            while j < 64
                invariant
                    self.wf(),
                    self.fixed(&start),
                    self.active == start.active,
                    32 <= j <= 64,
                    bits@.len() == 64,
                    values_ok(bits@, self.next()),
                    atoms(bits@),
                    all_high.ok(self.next()),
                    !(all_high is Pair),
                decreases 64 - j,
            {
                let ghost before = *self;
                let la = self.linear(&all_high)?;
                let lb = self.linear(&bits[j])?;
                all_high = self.product(la, lb)?;
                proof {
                    lemma_values_mono(bits@, before.next(), self.next());
                }
                j = j + 1;
            }
            let ghost before = *self;
            let low = self.pack(&bits, 0, 32)?;
            proof {
                lemma_values_mono(bits@, before.next(), self.next());
                lemma_value_mono(&all_high, before.next(), self.next());
            }
            let la = self.linear(&all_high)?;
            let ll = self.linear(&low)?;
            self.row(la, ll, Vec::new());
        }
        Ok(bits)
    }

    /// Σ 2^k · bits[lo + k] over `lo..hi`, as a new wire.
    pub fn pack(&mut self, bits: &Vec<Value>, lo: usize, hi: usize) -> (res: Result<Value, RelationError>)
        requires
            old(self).wf(),
            lo <= hi <= bits@.len(),
            hi - lo <= 64,
            values_ok(bits@, old(self).next()),
        ensures
            res is Err ==> res->Err_0 is Limit || res->Err_0 is Unsupported,
            res is Ok ==> {
                &&& gadget_ok(final(self), old(self))
                &&& res->Ok_0.ok(final(self).next())
                &&& !(res->Ok_0 is Pair)
            },
    {
        let mut l: Linear = Vec::new();
        let mut k: usize = lo;
        while k < hi
            invariant
                lo <= k <= hi,
                hi <= bits@.len(),
                hi - lo <= 64,
                values_ok(bits@, self.next()),
                lin_ok(l@, self.next()),
            decreases hi - k,
        {
            let lb = self.linear(&bits[k])?;
            let scale = Goldilocks::new(1u64 << ((k - lo) as u64));
            let mut i: usize = 0;
            while i < lb.len()
                invariant
                    i <= lb@.len(),
                    lin_ok(lb@, self.next()),
                    lin_ok(l@, self.next()),
                decreases lb@.len() - i,
            {
                let (w, c) = lb[i];
                l.push((w, c.mul(scale)));
                i = i + 1;
            }
            k = k + 1;
        }
        self.alloc_linear(l)
    }

    /// Unsigned comparison as a native boolean: zero when `a < b`.
    pub fn less_than(&mut self, a: &Value, b: &Value) -> (res: Result<Value, RelationError>)
        requires
            old(self).wf(),
            a.ok(old(self).next()),
            b.ok(old(self).next()),
        ensures
            res is Err ==> res->Err_0 is Limit || res->Err_0 is Unsupported,
            res is Ok ==> {
                &&& gadget_ok(final(self), old(self))
                &&& res->Ok_0.ok(final(self).next())
                &&& !(res->Ok_0 is Pair)
            },
    {
        let ghost start = *self;
        let ab = self.bits(a, 64)?;
        proof {
            lemma_value_mono(b, start.next(), self.next());
        }
        let ghost mid = *self;
        let bb = self.bits(b, 64)?;
        proof {
            lemma_values_mono(ab@, mid.next(), self.next());
        }
        let one = Value::Constant(Goldilocks::one());
        let mut lt = Value::Constant(Goldilocks::zero());
        let mut k: usize = 0;
        while k < 64
            invariant
                self.wf(),
                self.fixed(&start),
                self.active == start.active,
                k <= 64,
                ab@.len() == 64,
                bb@.len() == 64,
                values_ok(ab@, self.next()),
                values_ok(bb@, self.next()),
                atoms(ab@),
                atoms(bb@),
                lt.ok(self.next()),
                !(lt is Pair),
                one is Constant,
            decreases 64 - k,
        {
            let ghost before = *self;
            let x = &ab[k];
            let y = &bb[k];
            assert(x.ok(self.next()) && y.ok(self.next()));
            let lx = self.linear(x)?;
            let ly = self.linear(y)?;
            let both = self.product(lx, ly)?;
            proof {
                lemma_value_mono(x, before.next(), self.next());
                lemma_value_mono(y, before.next(), self.next());
            }
            let ghost n1 = self.next();
            let equal = self.add(&one, x, true)?;
            proof {
                lemma_value_mono(y, n1, self.next());
            }
            let ghost n2 = self.next();
            let equal = self.add(&equal, y, true)?;
            let twice = self.add(&both, &both, false)?;
            let equal = self.add(&equal, &twice, false)?;
            let le = self.linear(&equal)?;
            let llt = self.linear(&lt)?;
            let lower = self.product(le, llt)?;
            proof {
                lemma_value_mono(y, n2, self.next());
            }
            let at_bit = self.add(y, &both, true)?;
            lt = self.add(&at_bit, &lower, false)?;
            proof {
                lemma_values_mono(ab@, before.next(), self.next());
                lemma_values_mono(bb@, before.next(), self.next());
            }
            k = k + 1;
        }
        self.add(&one, &lt, true)
    }

    /// xor (11), and (12) or left shift (14) of two 32-bit words.
    pub fn word_binary(&mut self, tag: u64, a: &Value, b: &Value) -> (res: Result<Value, RelationError>)
        requires
            old(self).wf(),
            a.ok(old(self).next()),
            b.ok(old(self).next()),
        ensures
            res is Err ==> res->Err_0 is Limit || res->Err_0 is Unsupported,
            res is Ok ==> {
                &&& gadget_ok(final(self), old(self))
                &&& res->Ok_0.ok(final(self).next())
                &&& !(res->Ok_0 is Pair)
            },
    {
        let ghost start = *self;
        let ab = self.bits(a, 32)?;
        proof {
            lemma_value_mono(b, start.next(), self.next());
        }
        let ghost mid = *self;
        let bb = self.bits(b, 32)?;
        proof {
            lemma_values_mono(ab@, mid.next(), self.next());
        }
        let mut out: Vec<Value> = Vec::new();
        if tag == 14 {
            let mut shifted = ab;
            let mut k: usize = 0;
            while k < 5
                invariant
                    self.wf(),
                    self.fixed(&start),
                    self.active == start.active,
                    k <= 5,
                    shifted@.len() == 32,
                    bb@.len() == 32,
                    values_ok(shifted@, self.next()),
                    values_ok(bb@, self.next()),
                    atoms(shifted@),
                    atoms(bb@),
                decreases 5 - k,
            {
                let step: usize = 1usize << k;
                let mut next: Vec<Value> = Vec::new();
                let mut i: usize = 0;
                while i < 32
                    invariant
                        self.wf(),
                        self.fixed(&start),
                        self.active == start.active,
                        k < 5,
                        i <= 32,
                        next@.len() == i,
                        shifted@.len() == 32,
                        bb@.len() == 32,
                        values_ok(shifted@, self.next()),
                        values_ok(bb@, self.next()),
                        values_ok(next@, self.next()),
                        atoms(shifted@),
                        atoms(bb@),
                        atoms(next@),
                    decreases 32 - i,
                {
                    let ghost before = *self;
                    let source = if i >= step {
                        shifted[i - step].copy()
                    } else {
                        Value::Constant(Goldilocks::zero())
                    };
                    let m = self.mux(&bb[k], &shifted[i], &source)?;
                    proof {
                        lemma_values_mono(shifted@, before.next(), self.next());
                        lemma_values_mono(bb@, before.next(), self.next());
                        lemma_values_mono(next@, before.next(), self.next());
                        assert(!(m is Pair)) by {
                            assert(!(shifted@[i as int] is Pair));
                        }
                    }
                    next.push(m);
                    i = i + 1;
                }
                shifted = next;
                k = k + 1;
            }
            let ghost m1 = *self;
            let high = self.pack(&bb, 5, 32)?;
            let ghost m2 = *self;
            let too_large = self.nonzero(&high)?;
            let in_range = self.add(&Value::Constant(Goldilocks::one()), &too_large, true)?;
            proof {
                lemma_values_mono(shifted@, m1.next(), self.next());
            }
            let mut i: usize = 0;
            while i < 32
                invariant
                    self.wf(),
                    self.fixed(&start),
                    self.active == start.active,
                    i <= 32,
                    out@.len() == i,
                    shifted@.len() == 32,
                    values_ok(shifted@, self.next()),
                    values_ok(out@, self.next()),
                    atoms(shifted@),
                    atoms(out@),
                    in_range.ok(self.next()),
                    !(in_range is Pair),
                decreases 32 - i,
            {
                let ghost before = *self;
                let lr = self.linear(&in_range)?;
                let lb = self.linear(&shifted[i])?;
                let v = self.product(lr, lb)?;
                proof {
                    lemma_values_mono(shifted@, before.next(), self.next());
                    lemma_values_mono(out@, before.next(), self.next());
                }
                out.push(v);
                i = i + 1;
            }
        } else {
            let mut i: usize = 0;
            while i < 32
                invariant
                    self.wf(),
                    self.fixed(&start),
                    self.active == start.active,
                    i <= 32,
                    out@.len() == i,
                    ab@.len() == 32,
                    bb@.len() == 32,
                    values_ok(ab@, self.next()),
                    values_ok(bb@, self.next()),
                    values_ok(out@, self.next()),
                    atoms(ab@),
                    atoms(bb@),
                    atoms(out@),
                decreases 32 - i,
            {
                let ghost before = *self;
                let lx = self.linear(&ab[i])?;
                let ly = self.linear(&bb[i])?;
                let both = self.product(lx, ly)?;
                let v = if tag == 12 {
                    both
                } else {
                    let sum = self.add(&ab[i], &bb[i], false)?;
                    let twice = self.add(&both, &both, false)?;
                    self.add(&sum, &twice, true)?
                };
                proof {
                    lemma_values_mono(ab@, before.next(), self.next());
                    lemma_values_mono(bb@, before.next(), self.next());
                    lemma_values_mono(out@, before.next(), self.next());
                }
                out.push(v);
                i = i + 1;
            }
        }
        self.pack(&out, 0, 32)
    }
}

} // verus!
