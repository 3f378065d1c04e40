//! Poseidon2 hashing of nouns, fully constrained, and the gadgets it needs.
use super::builder::{digest_ok, lin_ok, minus_one, Builder, Linear, Node, Op, ONE, ZERO};
use super::word::{lemma_grows_trans, wires_ok};
use crate::execution::relation::RelationError as Error;
use crate::field::Goldilocks;
use vstd::prelude::*;

verus! {

/// The index of the entry of `v` keyed `key`, if any.
fn find_key(v: &Vec<(usize, [usize; 4])>, key: usize) -> (r: Option<usize>)
    ensures
        r matches Some(i) ==> i < v@.len() && v@[i as int].0 == key && forall|j: int| 0 <= j < i ==> (#[trigger] v@[j]).0 != key,
        r is None ==> forall|j: int| 0 <= j < v@.len() ==> (#[trigger] v@[j]).0 != key,
{
    let mut i: usize = 0;
    while i < v.len()
        invariant
            i <= v@.len(),
            forall|j: int| 0 <= j < i ==> (#[trigger] v@[j]).0 != key,
        decreases v@.len() - i,
    {
        if v[i].0 == key {
            return Some(i);
        }
        i = i + 1;
    }
    None
}

/// Whether two digests are the same wires.
fn same4(a: &[usize; 4], b: &[usize; 4]) -> (r: bool)
    ensures
        r == (a@ == b@),
{
    let mut i: usize = 0;
    while i < 4
        invariant
            i <= 4,
            forall|j: int| 0 <= j < i ==> a@[j] == b@[j],
        decreases 4 - i,
    {
        if a[i] != b[i] {
            return false;
        }
        i = i + 1;
    }
    assert(a@ =~= b@);
    true
}

/// The index of the pair digest cached for (`l`, `r`), if any.
fn find_pair(v: &Vec<([usize; 4], [usize; 4], [usize; 4])>, l: &[usize; 4], r: &[usize; 4]) -> (res: Option<usize>)
    ensures
        res matches Some(i) ==> i < v@.len() && v@[i as int].0@ == l@ && v@[i as int].1@ == r@ && forall|j: int|
            0 <= j < i ==> !((#[trigger] v@[j]).0@ == l@ && v@[j].1@ == r@),
        res is None ==> forall|j: int| 0 <= j < v@.len() ==> !((#[trigger] v@[j]).0@ == l@ && v@[j].1@ == r@),
{
    let mut i: usize = 0;
    while i < v.len()
        invariant
            i <= v@.len(),
            forall|j: int| 0 <= j < i ==> !((#[trigger] v@[j]).0@ == l@ && v@[j].1@ == r@),
        decreases v@.len() - i,
    {
        if same4(&v[i].0, l) && same4(&v[i].1, r) {
            return Some(i);
        }
        i = i + 1;
    }
    None
}

impl Builder {
    /// The inverse-or-zero gadget: returns (inverse, nonzero), the selector
    /// being one exactly when `x` is nonzero.
    pub fn inverse_or_zero(&mut self, x: usize) -> (res: Result<(usize, usize), Error>)
        requires
            old(self).wf(),
            x < old(self).next(),
        ensures
            res is Err ==> res == Err::<(usize, usize), Error>(Error::Limit),
            res is Ok ==> {
                &&& final(self).wf()
                &&& final(self).grows(old(self))
                &&& res->Ok_0.0 < final(self).next()
                &&& res->Ok_0.1 < final(self).next()
            },
    {
        let ghost start = *self;
        let inv = self.inv(x)?;
        let nonzero = self.mul(x, inv)?;
        let zero = self.lin(vec![(ONE, Goldilocks::one()), (nonzero, minus_one())])?;
        self.zero_product(nonzero, vec![(zero, Goldilocks::one())])?;
        self.zero_product(x, vec![(zero, Goldilocks::one())])?;
        self.zero_product(inv, vec![(zero, Goldilocks::one())])?;
        proof {
            lemma_grows_trans(&start, &start, self);
        }
        Ok((inv, nonzero))
    }

    /// One linear layer of the permutation: the external matrix, or
    /// `1 + diag` on the diagonal and 1 elsewhere for the internal one.
    pub fn linear_layer(&mut self, state: [usize; 16], internal: bool) -> (res: Result<[usize; 16], Error>)
        requires
            old(self).wf(),
            wires_ok(state@, old(self).next()),
        ensures
            res is Err ==> res == Err::<[usize; 16], Error>(Error::Limit),
            res is Ok ==> {
                &&& final(self).wf()
                &&& final(self).grows(old(self))
                &&& wires_ok(res->Ok_0@, final(self).next())
            },
    {
        let ghost start = *self;
        let mut out = [ZERO; 16];
        let mut row: usize = 0;
        while row < 16
            invariant
                self.wf(),
                self.grows(&start),
                row <= 16,
                wires_ok(state@, self.next()),
                wires_ok(out@, self.next()),
            decreases 16 - row,
        {
            let ghost before = *self;
            let mut terms: Linear = Vec::new();
            let mut col: usize = 0;
            while col < 16
                invariant
                    col <= 16,
                    row < 16,
                    wires_ok(state@, self.next()),
                    lin_ok(terms@, self.next()),
                decreases 16 - col,
            {
                let coefficient = if internal {
                    if row == col {
                        Goldilocks::one().add(self.tables.diag[row])
                    } else {
                        Goldilocks::one()
                    }
                } else {
                    self.tables.external[row][col]
                };
                terms.push((state[col], coefficient));
                col = col + 1;
            }
            let w = self.lin(terms)?;
            out[row] = w;
            proof {
                lemma_grows_trans(&start, &before, self);
            }
            row = row + 1;
        }
        Ok(out)
    }

    /// The Poseidon2 permutation: an external layer, four full rounds,
    /// sixteen partial rounds with an inverse S-box, four full rounds.
    pub fn permute(&mut self, input: [usize; 16]) -> (res: Result<[usize; 16], Error>)
        requires
            old(self).wf(),
            wires_ok(input@, old(self).next()),
        ensures
            res is Err ==> res == Err::<[usize; 16], Error>(Error::Limit),
            res is Ok ==> {
                &&& final(self).wf()
                &&& final(self).grows(old(self))
                &&& wires_ok(res->Ok_0@, final(self).next())
            },
    {
        let ghost start = *self;
        let mut state = self.linear_layer(input, false)?;
        let mut round: usize = 0;
        while round < 24
            invariant
                self.wf(),
                self.grows(&start),
                round <= 24,
                wires_ok(state@, self.next()),
            decreases 24 - round,
        {
            let ghost before = *self;
            let partial = 4 <= round && round < 20;
            if partial {
                let rc = self.tables.round_constants[128 + round - 4];
                let x = self.lin(vec![(state[0], Goldilocks::one()), (ONE, Goldilocks::new(rc))])?;
                let ghost mid = *self;
                let s0 = self.inverse_or_zero(x)?.0;
                state[0] = s0;
                proof {
                    lemma_grows_trans(&before, &mid, self);
                }
            } else {
                let offset = if round < 4 {
                    round * 16
                } else {
                    (round - 16) * 16
                };
                let mut lane: usize = 0;
                while lane < 16
                    invariant
                        self.wf(),
                        self.grows(&before),
                        lane <= 16,
                        offset + 16 <= 128,
                        wires_ok(state@, self.next()),
                    decreases 16 - lane,
                {
                    let ghost lb = *self;
                    let rc = self.tables.round_constants[offset + lane];
                    let x = self.lin(vec![(state[lane], Goldilocks::one()), (ONE, Goldilocks::new(rc))])?;
                    let square = self.mul(x, x)?;
                    let cube = self.mul(square, x)?;
                    let fourth = self.mul(square, square)?;
                    let v = self.mul(cube, fourth)?;
                    state[lane] = v;
                    proof {
                        lemma_grows_trans(&before, &lb, self);
                    }
                    lane = lane + 1;
                }
            }
            let ghost mid2 = *self;
            state = self.linear_layer(state, partial)?;
            proof {
                lemma_grows_trans(&before, &mid2, self);
                lemma_grows_trans(&start, &before, self);
            }
            round = round + 1;
        }
        Ok(state)
    }

    /// The 64 canonical bits of a field element: boolean, recomposing to it,
    /// and excluding the aliases `x + p`.
    pub fn canonical_bits(&mut self, value: usize) -> (res: Result<[usize; 64], Error>)
        requires
            old(self).wf(),
            value < old(self).next(),
        ensures
            res is Err ==> res == Err::<[usize; 64], Error>(Error::Limit),
            res is Ok ==> {
                &&& final(self).wf()
                &&& final(self).grows(old(self))
                &&& wires_ok(res->Ok_0@, final(self).next())
            },
    {
        let ghost start = *self;
        let mut bits = [ZERO; 64];
        let mut sum: Linear = Vec::new();
        let mut k: usize = 0;
        while k < 64
            invariant
                self.wf(),
                self.grows(&start),
                k <= 64,
                value < self.next(),
                wires_ok(bits@, self.next()),
                lin_ok(sum@, self.next()),
            decreases 64 - k,
        {
            let ghost before = *self;
            let b = self.allocate(Op::Bit(value, k))?;
            self.zero_product(b, vec![(ONE, Goldilocks::one()), (b, minus_one())])?;
            sum.push((b, Goldilocks::new(1u64 << k)));
            bits[k] = b;
            proof {
                lemma_grows_trans(&start, &before, self);
            }
            k = k + 1;
        }
        sum.push((value, minus_one()));
        self.zero_product(ONE, sum)?;
        let mut all_high = ONE;
        let mut i: usize = 32;
        while i < 64
            invariant
                self.wf(),
                self.grows(&start),
                32 <= i <= 64,
                all_high < self.next(),
                wires_ok(bits@, self.next()),
            decreases 64 - i,
        {
            let ghost before = *self;
            all_high = self.mul(all_high, bits[i])?;
            proof {
                lemma_grows_trans(&start, &before, self);
            }
            i = i + 1;
        }
        let ghost m = *self;
        let low = self.pack_bits(&bits, 0, 32)?;
        self.zero_product(all_high, vec![(low, Goldilocks::one())])?;
        proof {
            lemma_grows_trans(&start, &m, self);
        }
        Ok(bits)
    }

    /// The digest of an atom: its eight little-endian bytes absorbed with
    /// the hash domain, then a chunk finalisation.
    pub fn atom_digest(&mut self, value: usize) -> (res: Result<[usize; 4], Error>)
        requires
            old(self).wf(),
            value < old(self).next(),
        ensures
            res is Err ==> res == Err::<[usize; 4], Error>(Error::Limit),
            res is Ok ==> {
                &&& final(self).wf()
                &&& final(self).grows(old(self))
                &&& digest_ok(res->Ok_0, final(self).next())
            },
    {
        let ghost start = *self;
        if let Some(i) = find_key(&self.atom_digests, value) {
            let d = self.atom_digests[i].1;
            return Ok(d);
        }
        let bits = self.canonical_bits(value)?;
        let ghost m1 = *self;
        let mut state = [ZERO; 16];
        state[0] = self.pack_bits(&bits, 0, 56)?;
        let ghost m2 = *self;
        let high = self.pack_bits(&bits, 56, 64)?;
        let ghost m3 = *self;
        state[1] = self.lin(vec![(high, Goldilocks::one()), (ONE, Goldilocks::new(256))])?;
        let ghost m4 = *self;
        state[10] = self.constant(8)?;
        proof {
            lemma_grows_trans(&start, &m1, &m2);
            lemma_grows_trans(&start, &m2, &m3);
            lemma_grows_trans(&start, &m3, &m4);
            lemma_grows_trans(&start, &m4, self);
        }
        let ghost m5 = *self;
        let base = self.permute(state)?;
        let mut state2 = [ZERO; 16];
        state2[0] = base[0];
        state2[1] = base[1];
        state2[2] = base[2];
        state2[3] = base[3];
        let ghost m6 = *self;
        state2[9] = self.constant(4)?;
        proof {
            lemma_grows_trans(&start, &m5, &m6);
            lemma_grows_trans(&start, &m6, self);
        }
        let ghost m7 = *self;
        let out = self.permute(state2)?;
        proof {
            lemma_grows_trans(&start, &m7, self);
        }
        let digest = [out[0], out[1], out[2], out[3]];
        self.atom_digests.push((value, digest));
        Ok(digest)
    }

    /// The digest of a pair from the digests of its two sides.
    pub fn pair_digest(&mut self, left: [usize; 4], right: [usize; 4]) -> (res: Result<[usize; 4], Error>)
        requires
            old(self).wf(),
            digest_ok(left, old(self).next()),
            digest_ok(right, old(self).next()),
        ensures
            res is Err ==> res == Err::<[usize; 4], Error>(Error::Limit),
            res is Ok ==> {
                &&& final(self).wf()
                &&& final(self).grows(old(self))
                &&& digest_ok(res->Ok_0, final(self).next())
            },
    {
        let ghost start = *self;
        if let Some(i) = find_pair(&self.pair_digests, &left, &right) {
            let d = self.pair_digests[i].2;
            return Ok(d);
        }
        let mut state = [ZERO; 16];
        let mut i: usize = 0;
        while i < 4
            invariant
                i <= 4,
                digest_ok(left, self.next()),
                digest_ok(right, self.next()),
                wires_ok(state@, self.next()),
            decreases 4 - i,
        {
            state[i] = left[i];
            state[4 + i] = right[i];
            i = i + 1;
        }
        state[9] = self.constant(2)?;
        let ghost m = *self;
        let out = self.permute(state)?;
        proof {
            lemma_grows_trans(&start, &m, self);
        }
        let digest = [out[0], out[1], out[2], out[3]];
        self.pair_digests.push((left, right, digest));
        Ok(digest)
    }

    /// The digest of a node: an atom's digest, a pair's digest, or for a
    /// node whose tag is a wire the selection between the two.
    pub fn structural_digest(&mut self, node: &Node) -> (res: Result<[usize; 4], Error>)
        requires
            old(self).wf(),
            node.ok(old(self).next()),
        ensures
            res is Err ==> res == Err::<[usize; 4], Error>(Error::Limit),
            res is Ok ==> {
                &&& final(self).wf()
                &&& final(self).grows(old(self))
                &&& digest_ok(res->Ok_0, final(self).next())
            },
        decreases node,
    {
        let ghost start = *self;
        if let Some(i) = find_key(&self.digests, node.id) {
            let d = self.digests[i].1;
            return Ok(d);
        }
        let digest = if node.tag == ZERO {
            self.atom_digest(node.value)?
        } else {
            match &node.children {
                Some((a, b)) => {
                    let da = self.structural_digest(a)?;
                    let ghost m1 = *self;
                    proof {
                        super::builder::lemma_node_mono(b, start.next(), self.next());
                    }
                    let db = self.structural_digest(b)?;
                    let ghost m2 = *self;
                    proof {
                        lemma_grows_trans(&start, &m1, &m2);
                    }
                    let pair = self.pair_digest(da, db)?;
                    proof {
                        lemma_grows_trans(&start, &m2, self);
                    }
                    if node.tag == ONE {
                        pair
                    } else {
                        let ghost m3 = *self;
                        let atom = self.atom_digest(node.value)?;
                        proof {
                            lemma_grows_trans(&start, &m3, self);
                        }
                        let mut out = [ZERO; 4];
                        let mut i: usize = 0;
                        while i < 4
                            invariant
                                self.wf(),
                                self.grows(&start),
                                i <= 4,
                                node.tag < self.next(),
                                digest_ok(atom, self.next()),
                                digest_ok(pair, self.next()),
                                digest_ok(out, self.next()),
                            decreases 4 - i,
                        {
                            let ghost before = *self;
                            let o = self.select(node.tag, atom[i], pair[i])?;
                            out[i] = o;
                            proof {
                                lemma_grows_trans(&start, &before, self);
                            }
                            i = i + 1;
                        }
                        out
                    }
                },
                None => self.atom_digest(node.value)?,
            }
        };
        self.digests.push((node.id, digest));
        Ok(digest)
    }

    /// A digest as the noun [[d0 d1] [d2 d3]], scaled by `active`.
    pub fn digest_noun(&mut self, digest: [usize; 4], active: usize) -> (res: Result<Box<Node>, Error>)
        requires
            old(self).wf(),
            digest_ok(digest, old(self).next()),
            active < old(self).next(),
        ensures
            res is Err ==> res == Err::<Box<Node>, Error>(Error::Limit),
            res is Ok ==> {
                &&& final(self).wf()
                &&& final(self).grows(old(self))
                &&& res->Ok_0.ok(final(self).next())
            },
    {
        let ghost start = *self;
        let v0 = self.mul(active, digest[0])?;
        let l0 = self.node(ZERO, v0, None)?;
        let ghost t0 = self.next();
        let v1 = self.mul(active, digest[1])?;
        let l1 = self.node(ZERO, v1, None)?;
        let ghost t1 = self.next();
        let v2 = self.mul(active, digest[2])?;
        let l2 = self.node(ZERO, v2, None)?;
        let ghost t2 = self.next();
        let v3 = self.mul(active, digest[3])?;
        let l3 = self.node(ZERO, v3, None)?;
        proof {
            super::builder::lemma_node_mono(&l0, t0, self.next());
            super::builder::lemma_node_mono(&l1, t1, self.next());
            super::builder::lemma_node_mono(&l2, t2, self.next());
        }
        let left = self.node(active, ZERO, Some((l0, l1)))?;
        let ghost t4 = self.next();
        let right = self.node(active, ZERO, Some((l2, l3)))?;
        proof {
            super::builder::lemma_node_mono(&left, t4, self.next());
        }
        self.node(active, ZERO, Some((left, right)))
    }

    /// One when some limb of `a` differs from the same limb of `b`, else zero.
    pub fn digest_unequal(&mut self, a: [usize; 4], b: [usize; 4]) -> (res: Result<usize, Error>)
        requires
            old(self).wf(),
            digest_ok(a, old(self).next()),
            digest_ok(b, old(self).next()),
        ensures
            res is Err ==> res == Err::<usize, Error>(Error::Limit),
            res is Ok ==> {
                &&& final(self).wf()
                &&& final(self).grows(old(self))
                &&& res->Ok_0 < final(self).next()
            },
    {
        let ghost start = *self;
        let mut unequal = ZERO;
        let mut i: usize = 0;
        while i < 4
            invariant
                self.wf(),
                self.grows(&start),
                i <= 4,
                unequal < self.next(),
                digest_ok(a, self.next()),
                digest_ok(b, self.next()),
            decreases 4 - i,
        {
            let ghost before = *self;
            let delta = self.lin(vec![(a[i], Goldilocks::one()), (b[i], minus_one())])?;
            let bit = self.inverse_or_zero(delta)?.1;
            let both = self.mul(unequal, bit)?;
            unequal = self.lin(vec![(unequal, Goldilocks::one()), (bit, Goldilocks::one()), (both, minus_one())])?;
            proof {
                lemma_grows_trans(&start, &before, self);
            }
            i = i + 1;
        }
        Ok(unequal)
    }
}

} // verus!
