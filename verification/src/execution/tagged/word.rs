//! Unsigned ordering and 32-bit word operations, with range checks on the
//! active branch.
use super::builder::{lin_ok, minus_one, Builder, Linear, Op, ONE, ZERO};
use crate::execution::relation::RelationError as Error;
use crate::field::Goldilocks;
use vstd::prelude::*;

verus! {

/// Every wire of `s` is below `n`.
pub open spec fn wires_ok(s: Seq<usize>, n: nat) -> bool {
    forall|i: int| 0 <= i < s.len() ==> #[trigger] s[i] < n
}

/// Growth of builders is transitive.
pub proof fn lemma_grows_trans(a: &Builder, b: &Builder, c: &Builder)
    requires
        b.grows(a),
        c.grows(b),
    ensures
        c.grows(a),
{
    assert forall|k: int| 0 <= k < a.ops@.len() implies c.ops@[k] == #[trigger] a.ops@[k] by {
        assert(b.ops@[k] == a.ops@[k]);
        assert(c.ops@[k] == b.ops@[k]);
    }
    assert forall|k: int| 0 <= k < a.rows@.len() implies c.rows@[k] == #[trigger] a.rows@[k] by {
        assert(b.rows@[k] == a.rows@[k]);
        assert(c.rows@[k] == b.rows@[k]);
    }
}

impl Builder {
    /// The 32 bit wires of `active · value`, each boolean, recomposing to it
    /// exactly.
    pub fn word_bits(&mut self, value: usize, active: usize) -> (res: Result<[usize; 32], Error>)
        requires
            old(self).wf(),
            value < old(self).next(),
            active < old(self).next(),
        ensures
            res is Err ==> res == Err::<[usize; 32], Error>(Error::Limit),
            res is Ok ==> {
                &&& final(self).wf()
                &&& final(self).grows(old(self))
                &&& wires_ok(res->Ok_0@, final(self).next())
            },
    {
        let ghost start = *self;
        let masked = self.mul(active, value)?;
        let mut bits = [ZERO; 32];
        let mut sum: Linear = vec![(masked, minus_one())];
        let mut k: usize = 0;
        while k < 32
            invariant
                self.wf(),
                self.grows(&start),
                k <= 32,
                masked < self.next(),
                wires_ok(bits@, self.next()),
                lin_ok(sum@, self.next()),
            decreases 32 - k,
        {
            let ghost before = *self;
            let b = self.allocate(Op::Bit(masked, k))?;
            let m1 = minus_one();
            self.zero_product(b, vec![(ONE, Goldilocks::one()), (b, m1)])?;
            sum.push((b, Goldilocks::new(1u64 << k)));
            bits[k] = b;
            proof {
                lemma_grows_trans(&start, &before, self);
            }
            k = k + 1;
        }
        self.zero_product(ONE, sum)?;
        proof {
            lemma_grows_trans(&start, &start, self);
        }
        Ok(bits)
    }

    /// Σ 2^k · bits[lo + k] over `lo..hi`.
    pub fn pack_bits(&mut self, bits: &[usize], lo: usize, hi: usize) -> (res: Result<usize, Error>)
        requires
            old(self).wf(),
            lo <= hi <= bits@.len(),
            hi - lo <= 64,
            wires_ok(bits@, old(self).next()),
        ensures
            res is Err ==> res == Err::<usize, Error>(Error::Limit),
            res is Ok ==> {
                &&& final(self).wf()
                &&& final(self).grows(old(self))
                &&& res->Ok_0 < final(self).next()
            },
    {
        let mut l: Linear = Vec::new();
        let mut i: usize = lo;
        while i < hi
            invariant
                lo <= i <= hi,
                hi <= bits@.len(),
                hi - lo <= 64,
                wires_ok(bits@, self.next()),
                lin_ok(l@, self.next()),
            decreases hi - i,
        {
            l.push((bits[i], Goldilocks::new(1u64 << ((i - lo) as u64))));
            i = i + 1;
        }
        self.lin(l)
    }

    /// Unsigned comparison of two canonical field elements, as a native
    /// boolean: the wire is 0 when `a < b` and 1 otherwise.
    pub fn unsigned_less(&mut self, a: usize, b: usize) -> (res: Result<usize, Error>)
        requires
            old(self).wf(),
            a < old(self).next(),
            b < old(self).next(),
        ensures
            res is Err ==> res == Err::<usize, Error>(Error::Limit),
            res is Ok ==> {
                &&& final(self).wf()
                &&& final(self).grows(old(self))
                &&& res->Ok_0 < final(self).next()
            },
    {
        let ghost start = *self;
        let abits = self.canonical_bits(a)?;
        let ghost mid = *self;
        let bbits = self.canonical_bits(b)?;
        proof {
            lemma_grows_trans(&start, &mid, self);
        }
        let mut less = ZERO;
        let mut k: usize = 0;
        while k < 64
            invariant
                self.wf(),
                self.grows(&start),
                k <= 64,
                less < self.next(),
                wires_ok(abits@, self.next()),
                wires_ok(bbits@, self.next()),
            decreases 64 - k,
        {
            let ghost before = *self;
            let (x, y) = (abits[k], bbits[k]);
            let both = self.mul(x, y)?;
            let m1 = minus_one();
            let equal = self.lin(vec![(ONE, Goldilocks::one()), (x, m1), (y, m1), (both, Goldilocks::new(2))])?;
            let inherited = self.mul(equal, less)?;
            less = self.lin(vec![(y, Goldilocks::one()), (both, m1), (inherited, Goldilocks::one())])?;
            proof {
                lemma_grows_trans(&start, &before, self);
            }
            k = k + 1;
        }
        let r = self.lin(vec![(ONE, Goldilocks::one()), (less, minus_one())]);
        proof {
            if r is Ok {
                lemma_grows_trans(&start, &start, self);
            }
        }
        r
    }

    /// The bitwise complement of a 32-bit word.
    pub fn word_not(&mut self, value: usize, active: usize) -> (res: Result<usize, Error>)
        requires
            old(self).wf(),
            value < old(self).next(),
            active < old(self).next(),
        ensures
            res is Err ==> res == Err::<usize, Error>(Error::Limit),
            res is Ok ==> {
                &&& final(self).wf()
                &&& final(self).grows(old(self))
                &&& res->Ok_0 < final(self).next()
            },
    {
        let ghost start = *self;
        let bits = self.word_bits(value, active)?;
        let ghost mid = *self;
        let value = self.pack_bits(&bits, 0, 32)?;
        proof {
            lemma_grows_trans(&start, &mid, self);
        }
        let ghost mid2 = *self;
        let r = self.lin(vec![(ONE, Goldilocks::new(0xffff_ffffu64)), (value, minus_one())]);
        proof {
            if r is Ok {
                lemma_grows_trans(&start, &mid2, self);
            }
        }
        r
    }

    /// xor (11), and (12) or left shift (14) of two 32-bit words; a shift
    /// by 32 or more gives zero.
    pub fn word_binary(&mut self, tag: u64, a: usize, b: usize, active: usize) -> (res: Result<usize, Error>)
        requires
            old(self).wf(),
            a < old(self).next(),
            b < old(self).next(),
            active < old(self).next(),
        ensures
            res is Err ==> res == Err::<usize, Error>(Error::Limit),
            res is Ok ==> {
                &&& final(self).wf()
                &&& final(self).grows(old(self))
                &&& res->Ok_0 < final(self).next()
            },
    {
        let ghost start = *self;
        let abits = self.word_bits(a, active)?;
        let ghost m1 = *self;
        let bbits = self.word_bits(b, active)?;
        proof {
            lemma_grows_trans(&start, &m1, self);
        }
        let mut out = [ZERO; 32];
        if tag == 14 {
            let mut shifted = abits;
            let mut k: usize = 0;
            while k < 5
                invariant
                    self.wf(),
                    self.grows(&start),
                    k <= 5,
                    wires_ok(shifted@, self.next()),
                    wires_ok(bbits@, self.next()),
                    wires_ok(out@, self.next()),
                decreases 5 - k,
            {
                let step: usize = 1usize << k;
                let mut i: usize = 0;
                while i < 32
                    invariant
                        self.wf(),
                        self.grows(&start),
                        k < 5,
                        i <= 32,
                        wires_ok(shifted@, self.next()),
                        wires_ok(bbits@, self.next()),
                        wires_ok(out@, self.next()),
                    decreases 32 - i,
                {
                    let ghost before = *self;
                    let source = if i >= step {
                        shifted[i - step]
                    } else {
                        ZERO
                    };
                    let o = self.select(bbits[k], shifted[i], source)?;
                    out[i] = o;
                    proof {
                        lemma_grows_trans(&start, &before, self);
                    }
                    i = i + 1;
                }
                shifted = out;
                k = k + 1;
            }
            let ghost m2 = *self;
            let high = self.pack_bits(&bbits, 5, 32)?;
            proof {
                lemma_grows_trans(&start, &m2, self);
            }
            let ghost m3 = *self;
            let outside = self.inverse_or_zero(high)?.1;
            proof {
                lemma_grows_trans(&start, &m3, self);
            }
            let ghost m4 = *self;
            let inside = self.lin(vec![(ONE, Goldilocks::one()), (outside, minus_one())])?;
            proof {
                lemma_grows_trans(&start, &m4, self);
            }
            let mut i: usize = 0;
            while i < 32
                invariant
                    self.wf(),
                    self.grows(&start),
                    i <= 32,
                    inside < self.next(),
                    wires_ok(shifted@, self.next()),
                    wires_ok(out@, self.next()),
                decreases 32 - i,
            {
                let ghost before = *self;
                let o = self.mul(inside, shifted[i])?;
                out[i] = o;
                proof {
                    lemma_grows_trans(&start, &before, self);
                }
                i = i + 1;
            }
        } else {
            let mut i: usize = 0;
            while i < 32
                invariant
                    self.wf(),
                    self.grows(&start),
                    i <= 32,
                    wires_ok(abits@, self.next()),
                    wires_ok(bbits@, self.next()),
                    wires_ok(out@, self.next()),
                decreases 32 - i,
            {
                let ghost before = *self;
                let both = self.mul(abits[i], bbits[i])?;
                if tag == 12 {
                    out[i] = both;
                } else {
                    let o = self.lin(vec![(abits[i], Goldilocks::one()), (bbits[i], Goldilocks::one()), (both, Goldilocks::new(2).neg())])?;
                    out[i] = o;
                }
                proof {
                    lemma_grows_trans(&start, &before, self);
                }
                i = i + 1;
            }
        }
        let ghost m5 = *self;
        let r = self.pack_bits(&out, 0, 32);
        proof {
            if r is Ok {
                lemma_grows_trans(&start, &m5, self);
            }
        }
        r
    }
}

} // verus!
