//! Structural hashing of symbolic nouns in the execution relation: every
//! sponge lane is a constrained wire.
use crate::execution::relation::RelationError;
use crate::execution::relation_bits::{gadget_ok, lemma_values_mono, values_ok};
use crate::execution::relation_builder::{lemma_value_mono, Builder, Op, Value, MAX_DEPTH, MAX_ROWS};
use crate::execution::tagged::builder::{clone_linear, lin_ok, Linear};
use crate::field::{fmul, fsub, modulus, Goldilocks};
use crate::execution::relation_semantics::{atom_val, lemma_satisfied_shrink, satisfied_by};
use vstd::prelude::*;

verus! {

/// Sixteen zero constants.
pub fn zero_state() -> (s: Vec<Value>)
    ensures
        s@.len() == 16,
        values_ok(s@, 0),
{
    let mut s: Vec<Value> = Vec::new();
    let mut i: usize = 0;
    while i < 16
        invariant
            i <= 16,
            s@.len() == i,
            values_ok(s@, 0),
        decreases 16 - i,
    {
        s.push(Value::Constant(Goldilocks::zero()));
        i = i + 1;
    }
    s
}

/// The digest as the noun [[d0 d1] [d2 d3]].
pub fn digest_value(d: &Vec<Value>) -> (r: Value)
    requires
        d@.len() >= 4,
    ensures
        forall|n: nat| values_ok(d@, n) ==> r.ok(n),
{
    let r = Value::Pair(
        Box::new(Value::Pair(Box::new(d[0].copy()), Box::new(d[1].copy()))),
        Box::new(Value::Pair(Box::new(d[2].copy()), Box::new(d[3].copy()))),
    );
    assert forall|n: nat| values_ok(d@, n) implies r.ok(n) by {
        assert(d@[0].ok(n) && d@[1].ok(n) && d@[2].ok(n) && d@[3].ok(n));
        reveal_with_fuel(Value::ok, 3);
    }
    r
}

impl Builder {
    /// One linear layer: the external matrix, or `1 + diag` on the diagonal
    /// and 1 elsewhere for the internal one.
    pub fn hash_mds(&mut self, state: &Vec<Value>, internal: bool) -> (res: Result<Vec<Value>, RelationError>)
        requires
            old(self).wf(),
            state@.len() == 16,
            values_ok(state@, old(self).next()),
        ensures
            res is Err ==> res->Err_0 is Limit || res->Err_0 is Unsupported,
            res is Ok ==> {
                &&& gadget_ok(final(self), old(self))
                &&& res->Ok_0@.len() == 16
                &&& values_ok(res->Ok_0@, final(self).next())
            },
    {
        let ghost start = *self;
        let mut out: Vec<Value> = Vec::new();
        let mut row: usize = 0;
        while row < 16
            invariant
                self.wf(),
                self.fixed(&start),
                self.active == start.active,
                row <= 16,
                out@.len() == row,
                state@.len() == 16,
                values_ok(state@, self.next()),
                values_ok(out@, self.next()),
            decreases 16 - row,
        {
            let ghost before = *self;
            let mut terms: Linear = Vec::new();
            let mut col: usize = 0;
            while col < 16
                invariant
                    col <= 16,
                    row < 16,
                    state@.len() == 16,
                    values_ok(state@, self.next()),
                    lin_ok(terms@, self.next()),
                decreases 16 - col,
            {
                let coefficient = if internal {
                    if row == col {
                        Goldilocks::one().add(self.tables.diag[row])
                    } else {
                        Goldilocks::one()
                    }
                } else {
                    self.tables.external[row][col]
                };
                let l = self.linear(&state[col])?;
                let mut i: usize = 0;
                while i < l.len()
                    invariant
                        i <= l@.len(),
                        lin_ok(l@, self.next()),
                        lin_ok(terms@, self.next()),
                    decreases l@.len() - i,
                {
                    let (w, c) = l[i];
                    terms.push((w, c.mul(coefficient)));
                    i = i + 1;
                }
                col = col + 1;
            }
            let v = self.alloc_linear(terms)?;
            proof {
                lemma_values_mono(state@, before.next(), self.next());
                lemma_values_mono(out@, before.next(), self.next());
            }
            out.push(v);
            row = row + 1;
        }
        Ok(out)
    }

    /// The inverse-or-zero of an atom, fully constrained.
    pub fn hash_inv(&mut self, value: &Value) -> (res: Result<Value, RelationError>)
        requires
            old(self).wf(),
            value.ok(old(self).next()),
        ensures
            res is Err ==> res->Err_0 is Limit || res->Err_0 is Unsupported,
            res is Ok ==> gadget_ok(final(self), old(self)) && res->Ok_0.ok(final(self).next()),
    {
        let source = self.linear(value)?;
        let index = self.wire(Op::Inverse(clone_linear(&source)))?;
        let inverse = Value::Wire(index);
        let ghost n1 = self.next();
        proof {
            lemma_value_mono(value, index as nat, n1);
        }
        let nonzero = self.nonzero(value)?;
        let li = self.linear(&inverse)?;
        let ln = self.linear(&nonzero)?;
        self.row(source, li, ln);
        let zero = self.add(&Value::Constant(Goldilocks::one()), &nonzero, true)?;
        let li = self.linear(&inverse)?;
        let lz = self.linear(&zero)?;
        self.row(li, lz, Vec::new());
        Ok(inverse)
    }

    /// The Poseidon2 permutation over constrained lanes.
    pub fn hash_permute(&mut self, input: Vec<Value>) -> (res: Result<Vec<Value>, RelationError>)
        requires
            old(self).wf(),
            input@.len() == 16,
            values_ok(input@, old(self).next()),
        ensures
            res is Err ==> res->Err_0 is Limit || res->Err_0 is Unsupported,
            res is Ok ==> {
                &&& gadget_ok(final(self), old(self))
                &&& res->Ok_0@.len() == 16
                &&& values_ok(res->Ok_0@, final(self).next())
            },
    {
        let ghost start = *self;
        if self.ops.len() > MAX_ROWS || self.rows.len() > MAX_ROWS {
            return Err(RelationError::Limit);
        }
        let mut state = self.hash_mds(&input, false)?;
        let mut round: usize = 0;
        while round < 24
            invariant
                self.wf(),
                self.fixed(&start),
                self.active == start.active,
                round <= 24,
                state@.len() == 16,
                values_ok(state@, self.next()),
            decreases 24 - round,
        {
            let ghost before = *self;
            let partial = 4 <= round && round < 20;
            if partial {
                let rc = self.tables.round_constants[128 + round - 4];
                let value = self.add(&state[0], &Value::Constant(Goldilocks::new(rc)), false)?;
                let inv = self.hash_inv(&value)?;
                proof {
                    lemma_values_mono(state@, before.next(), self.next());
                }
                state.set(0, inv);
            } else {
                let offset = if round < 4 {
                    round * 16
                } else {
                    (round - 16) * 16
                };
                let mut lane: usize = 0;
                while lane < 16
                    invariant
                        self.wf(),
                        self.fixed(&start),
                        self.active == start.active,
                        lane <= 16,
                        offset + 16 <= 128,
                        state@.len() == 16,
                        values_ok(state@, self.next()),
                    decreases 16 - lane,
                {
                    let ghost lb = *self;
                    let rc = self.tables.round_constants[offset + lane];
                    let value = self.add(&state[lane], &Value::Constant(Goldilocks::new(rc)), false)?;
                    let x = self.linear(&value)?;
                    let square = self.product(clone_linear(&x), clone_linear(&x))?;
                    let square = self.linear(&square)?;
                    let cube = self.product(clone_linear(&square), x)?;
                    let fourth = self.product(clone_linear(&square), square)?;
                    let lc = self.linear(&cube)?;
                    let lf = self.linear(&fourth)?;
                    let v = self.product(lc, lf)?;
                    proof {
                        lemma_values_mono(state@, lb.next(), self.next());
                    }
                    state.set(lane, v);
                    lane = lane + 1;
                }
            }
            state = self.hash_mds(&state, partial)?;
            round = round + 1;
        }
        Ok(state)
    }

    /// The structural digest of a symbolic noun: an atom's eight bytes
    /// absorbed and finalised as a chunk, a pair as the parent of its two
    /// digests.
    pub fn structural_digest(&mut self, value: &Value, depth: usize) -> (res: Result<Vec<Value>, RelationError>)
        requires
            old(self).wf(),
            value.ok(old(self).next()),
        ensures
            res is Err ==> res->Err_0 is Limit || res->Err_0 is Unsupported,
            res is Ok ==> {
                &&& gadget_ok(final(self), old(self))
                &&& res->Ok_0@.len() == 4
                &&& values_ok(res->Ok_0@, final(self).next())
            },
        decreases value,
    {
        let ghost start = *self;
        if depth > MAX_DEPTH || self.ops.len() > MAX_ROWS || self.rows.len() > MAX_ROWS {
            return Err(RelationError::Limit);
        }
        let mut state = zero_state();
        proof {
            lemma_values_mono(state@, 0, self.next());
        }
        match value {
            Value::Pair(left, right) => {
                let l = self.structural_digest(left, depth + 1)?;
                let ghost n1 = self.next();
                proof {
                    lemma_value_mono(right, start.next(), n1);
                }
                let r = self.structural_digest(right, depth + 1)?;
                proof {
                    lemma_values_mono(l@, n1, self.next());
                    lemma_values_mono(state@, 0, self.next());
                }
                let mut i: usize = 0;
                while i < 4
                    invariant
                        i <= 4,
                        state@.len() == 16,
                        l@.len() == 4,
                        r@.len() == 4,
                        values_ok(state@, self.next()),
                        values_ok(l@, self.next()),
                        values_ok(r@, self.next()),
                    decreases 4 - i,
                {
                    state.set(i, l[i].copy());
                    state.set(4 + i, r[i].copy());
                    i = i + 1;
                }
                state.set(9, Value::Constant(Goldilocks::new(2)));
            },
            _ => {
                let bits = self.bits(value, 64)?;
                let ghost n1 = self.next();
                let s0 = self.pack(&bits, 0, 56)?;
                proof {
                    lemma_values_mono(bits@, n1, self.next());
                }
                let high = self.pack(&bits, 56, 64)?;
                let s1 = self.add(&high, &Value::Constant(Goldilocks::new(256)), false)?;
                proof {
                    lemma_values_mono(state@, 0, self.next());
                }
                state.set(0, s0);
                state.set(1, s1);
                state.set(10, Value::Constant(Goldilocks::new(8)));
                let base = self.hash_permute(state)?;
                state = zero_state();
                proof {
                    lemma_values_mono(state@, 0, self.next());
                }
                let mut i: usize = 0;
                while i < 4
                    invariant
                        i <= 4,
                        state@.len() == 16,
                        base@.len() == 16,
                        values_ok(state@, self.next()),
                        values_ok(base@, self.next()),
                    decreases 4 - i,
                {
                    state.set(i, base[i].copy());
                    i = i + 1;
                }
                state.set(9, Value::Constant(Goldilocks::new(4)));
            },
        }
        let out = self.hash_permute(state)?;
        let mut digest: Vec<Value> = Vec::new();
        let mut i: usize = 0;
        while i < 4
            invariant
                i <= 4,
                digest@.len() == i,
                out@.len() == 16,
                values_ok(out@, self.next()),
                values_ok(digest@, self.next()),
            decreases 4 - i,
        {
            digest.push(out[i].copy());
            i = i + 1;
        }
        Ok(digest)
    }

    /// Axis 0: the digest of the subject, as a noun.
    pub fn axis_hash(&mut self, value: &Value) -> (res: Result<Value, RelationError>)
        requires
            old(self).wf(),
            value.ok(old(self).next()),
        ensures
            res is Err ==> res->Err_0 is Limit || res->Err_0 is Unsupported,
            res is Ok ==> gadget_ok(final(self), old(self)) && res->Ok_0.ok(final(self).next()),
    {
        let d = self.structural_digest(value, 0)?;
        Ok(digest_value(&d))
    }

    /// Pattern 15: one plain permutation of the structural digest.
    pub fn hash(&mut self, value: &Value) -> (res: Result<Value, RelationError>)
        requires
            old(self).wf(),
            value.ok(old(self).next()),
        ensures
            res is Err ==> res->Err_0 is Limit || res->Err_0 is Unsupported,
            res is Ok ==> gadget_ok(final(self), old(self)) && res->Ok_0.ok(final(self).next()),
    {
        let ghost start = *self;
        let d = self.structural_digest(value, 0)?;
        let mut state = zero_state();
        proof {
            lemma_values_mono(state@, 0, self.next());
        }
        let mut i: usize = 0;
        while i < 4
            invariant
                i <= 4,
                state@.len() == 16,
                d@.len() == 4,
                values_ok(state@, self.next()),
                values_ok(d@, self.next()),
            decreases 4 - i,
        {
            state.set(i, d[i].copy());
            i = i + 1;
        }
        let out = self.hash_permute(state)?;
        Ok(digest_value(&out))
    }

    /// One when the values differ: atoms by an inverse test, nouns by their
    /// structural digests.
    pub fn equal(&mut self, a: &Value, b: &Value) -> (res: Result<Value, RelationError>)
        requires
            old(self).wf(),
            a.ok(old(self).next()),
            b.ok(old(self).next()),
        ensures
            res is Err ==> res->Err_0 is Limit || res->Err_0 is Unsupported,
            res is Ok ==> gadget_ok(final(self), old(self)) && res->Ok_0.ok(final(self).next()),
            res is Ok && !(a is Pair) && !(b is Pair) ==> {
                &&& !(res->Ok_0 is Pair)
                &&& forall|z: Seq<nat>| #[trigger] satisfied_by(final(self), z) ==> {
                    &&& atom_val(*a, z) == atom_val(*b, z) ==> atom_val(res->Ok_0, z) == 0
                    &&& fmul(fsub(atom_val(*a, z), atom_val(*b, z)), fsub(1, atom_val(res->Ok_0, z))) == 0
                }
            },
    {
        let ghost start = *self;
        let a_pair = match a {
            Value::Pair(_, _) => true,
            _ => false,
        };
        let b_pair = match b {
            Value::Pair(_, _) => true,
            _ => false,
        };
        if !a_pair && !b_pair {
            let delta = self.add(a, b, true)?;
            let ghost s1 = *self;
            let out = self.nonzero(&delta)?;
            proof {
                assert forall|z: Seq<nat>| #[trigger] satisfied_by(self, z) implies {
                    &&& atom_val(*a, z) == atom_val(*b, z) ==> atom_val(out, z) == 0
                    &&& fmul(fsub(atom_val(*a, z), atom_val(*b, z)), fsub(1, atom_val(out, z))) == 0
                } by {
                    lemma_satisfied_shrink(self, &s1, z);
                    assert(atom_val(delta, z) == fsub(atom_val(*a, z), atom_val(*b, z)));
                    if atom_val(*a, z) == atom_val(*b, z) {
                        vstd::arithmetic::div_mod::lemma_mod_self_0(modulus() as int);
                        vstd::arithmetic::div_mod::lemma_small_mod(atom_val(*b, z), modulus());
                        assert(fsub(atom_val(*a, z), atom_val(*b, z)) == 0);
                    }
                }
            }
            return Ok(out);
        }
        let left = self.structural_digest(a, 0)?;
        proof {
            lemma_value_mono(b, start.next(), self.next());
        }
        let ghost n1 = self.next();
        let right = self.structural_digest(b, 0)?;
        proof {
            lemma_values_mono(left@, n1, self.next());
        }
        let mut unequal = Value::Constant(Goldilocks::zero());
        let mut i: usize = 0;
        while i < 4
            invariant
                self.wf(),
                self.fixed(&start),
                self.active == start.active,
                i <= 4,
                left@.len() == 4,
                right@.len() == 4,
                values_ok(left@, self.next()),
                values_ok(right@, self.next()),
                unequal.ok(self.next()),
            decreases 4 - i,
        {
            let ghost before = *self;
            let delta = self.add(&left[i], &right[i], true)?;
            let bit = self.nonzero(&delta)?;
            proof {
                lemma_value_mono(&unequal, before.next(), self.next());
            }
            let lu = self.linear(&unequal)?;
            let lb = self.linear(&bit)?;
            let both = self.product(lu, lb)?;
            let ghost n2 = self.next();
            let sum = self.add(&unequal, &bit, false)?;
            proof {
                lemma_value_mono(&both, n2, self.next());
            }
            unequal = self.add(&sum, &both, true)?;
            proof {
                lemma_values_mono(left@, before.next(), self.next());
                lemma_values_mono(right@, before.next(), self.next());
            }
            i = i + 1;
        }
        Ok(unequal)
    }
}

} // verus!
