//! Symbolic evaluation of a nox formula into the execution relation, and
//! the lookups of pattern 17.
use crate::execution::relation::{ExecutionNoun, RelationError};
use crate::execution::relation_bits::{gadget_ok, lemma_values_mono, values_ok};
use crate::execution::relation_builder::{
    lemma_value_mono, Builder, LookupCoordinates, Op, PublicStateTables, Value, MAX_CALLS, MAX_DEPTH,
    MAX_ROWS,
};
use crate::execution::tagged::builder::{clone_linear, lin_ok, Linear};
use crate::execution::relation_semantics::{
    atom_val, canon, den, head_tag, is_constant_of, lemma_atom_lin, lemma_den_atom, lemma_den_axis, lemma_outside_fragment,
    lemma_satisfied_shrink, nox_reduce, reduces_to, satisfied_by, value_axis,
};
use crate::field::{modulus, Goldilocks};
use vstd::prelude::*;

verus! {

/// Check that a symbolic value is within the depth and node limits.
pub fn check_value(v: &Value, d: usize, count: &mut usize) -> (res: Result<(), RelationError>)
    requires
        *old(count) <= MAX_CALLS,
        d <= MAX_DEPTH + 1,
    ensures
        res is Err ==> res->Err_0 == RelationError::Limit,
        res is Ok ==> *final(count) <= MAX_CALLS && *old(count) < *final(count),
    decreases v,
{
    *count = *count + 1;
    if d > MAX_DEPTH || *count > MAX_CALLS {
        return Err(RelationError::Limit);
    }
    if let Value::Pair(a, b) = v {
        check_value(a, d + 1, count)?;
        check_value(b, d + 1, count)?;
    }
    Ok(())
}

/// A quoted noun as constants.
pub fn constant(n: &ExecutionNoun, d: usize) -> (res: Result<Value, RelationError>)
    ensures
        res is Err ==> res->Err_0 == RelationError::Limit,
        res is Ok ==> res->Ok_0.ok(0),
        res is Ok ==> is_constant_of(res->Ok_0, *n),
    decreases n,
{
    if d > MAX_DEPTH {
        return Err(RelationError::Limit);
    }
    match n {
        ExecutionNoun::Atom(a) => {
            let c = Goldilocks::new(*a);
            proof {
                vstd::arithmetic::div_mod::lemma_mod_twice(*a as int, modulus() as int);
                assert forall|z: Seq<nat>| #[trigger] den(Value::Constant(c), z) == canon(*n) by {}
            }
            Ok(Value::Constant(c))
        },
        ExecutionNoun::Pair(a, b) => {
            let ca = constant(a, d + 1)?;
            let cb = constant(b, d + 1)?;
            let v = Value::Pair(Box::new(ca), Box::new(cb));
            proof {
                assert forall|z: Seq<nat>| #[trigger] den(v, z) == canon(*n) by {
                    assert(den(ca, z) == canon(**a));
                    assert(den(cb, z) == canon(**b));
                }
            }
            Ok(v)
        },
    }
}

/// A value known statically (made of constants) as a noun; a wire makes
/// the continuation dynamic.
pub fn static_noun(v: &Value, d: usize) -> (res: Result<ExecutionNoun, RelationError>)
    ensures
        res is Err ==> res->Err_0 is Limit || res->Err_0 is Unsupported,
    decreases v,
{
    if d > MAX_DEPTH {
        return Err(RelationError::Limit);
    }
    match v {
        Value::Constant(a) => Ok(ExecutionNoun::Atom(a.as_u64())),
        Value::Pair(a, b) => {
            let a = static_noun(a, d + 1)?;
            let b = static_noun(b, d + 1)?;
            Ok(ExecutionNoun::Pair(Box::new(a), Box::new(b)))
        },
        Value::Wire(_) => Err(RelationError::Unsupported("dynamic continuation")),
    }
}

pub proof fn lemma_top_bit(x: u64, k: u64)
    requires
        k < 64,
        (x >> k) & 1u64 != 0u64,
        k < 63 ==> x >> ((k + 1) as u64) == 0,
    ensures
        x >> k == 1,
{
    assert(k < 64 && (x >> k) & 1u64 != 0u64 && (k < 63 ==> x >> ((k + 1) as u64) == 0) ==> x >> k == 1) by (bit_vector);
}

pub proof fn lemma_shift_step(x: u64, k: u64)
    requires
        k < 63,
    ensures
        (x >> k) / 2 == x >> ((k + 1) as u64),
        (x >> k) % 2 == (x >> k) & 1u64,
{
    assert(k < 63 ==> (x >> k) / 2 == x >> ((k + 1) as u64)) by (bit_vector);
    assert((x >> k) % 2 == (x >> k) & 1u64) by (bit_vector);
}

/// The sub-value at a nonzero axis address.
fn walk_axis(obj: &Value, axis: u64, err: &'static str) -> (res: Result<Value, RelationError>)
    requires
        axis > 0,
    ensures
        res is Err ==> res->Err_0 is Unsupported,
        res is Ok ==> forall|n: nat| obj.ok(n) ==> res->Ok_0.ok(n),
        res is Ok ==> value_axis(*obj, axis as nat) == Some(res->Ok_0),
{
    let lz = axis.leading_zeros();
    proof {
        vstd::std_specs::bits::axiom_u64_leading_zeros(axis);
        let t = (63 - lz) as u64;
        assert((axis >> t) & 1u64 != 0u64);
        if t < 63 {
            assert(axis >> ((t + 1) as u64) == 0);
        }
        lemma_top_bit(axis, t);
    }
    let bits: u32 = 63 - lz;
    let mut v = obj.copy();
    let mut b: u32 = bits;
    while b > 0
        invariant
            b <= 63,
            forall|n: nat| obj.ok(n) ==> v.ok(n),
            value_axis(*obj, (axis >> (b as u64)) as nat) == Some(v),
        decreases b,
    {
        let ghost hi = (axis >> (b as u64)) as nat;
        b = b - 1;
        proof {
            lemma_shift_step(axis, b as u64);
            assert((axis >> b) == (axis >> (b as u64)));
        }
        let next = match &v {
            Value::Pair(l, r) => {
                if (axis >> b) & 1 == 0 {
                    l.copy()
                } else {
                    r.copy()
                }
            },
            _ => {
                return Err(RelationError::Unsupported(err));
            },
        };
        v = next;
    }
    proof {
        assert(axis >> 0u64 == axis) by (bit_vector);
    }
    Ok(v)
}

/// The result postcondition of the evaluator.
pub open spec fn eval_ok(b: &Builder, old: &Builder, v: &Value, c: &Value, m: u64) -> bool {
    &&& b.wf()
    &&& b.grows(old)
    &&& b.active == old.active
    &&& v.ok(b.next())
    &&& c.ok(b.next())
    &&& old.calls < b.calls
    &&& m <= 64 * (b.calls - old.calls)
}

impl Builder {
    /// Evaluate `f` on `obj` within the operation and row budget; the value
    /// must itself be within the size limits.
    pub fn eval(&mut self, obj: &Value, f: &ExecutionNoun, depth: usize) -> (res: Result<(Value, Value, u64), RelationError>)
        requires
            old(self).wf(),
            obj.ok(old(self).next()),
        ensures
            res is Err ==> res->Err_0 is Limit || res->Err_0 is Unsupported || res->Err_0 is Malformed,
            res is Ok ==> eval_ok(final(self), old(self), &res->Ok_0.0, &res->Ok_0.1, res->Ok_0.2),
            res is Ok ==> reduces_to(final(self), *obj, *f, res->Ok_0.0),
        decreases MAX_CALLS - old(self).calls, 1nat,
    {
        if self.ops.len() > MAX_ROWS || self.rows.len() > MAX_ROWS {
            return Err(RelationError::Limit);
        }
        let result = self.eval_inner(obj, f, depth)?;
        let mut count: usize = 0;
        check_value(&result.0, 0, &mut count)?;
        if self.ops.len() > MAX_ROWS || self.rows.len() > MAX_ROWS {
            return Err(RelationError::Limit);
        }
        Ok(result)
    }

    /// One evaluation step: dispatch on the formula's tag.
    pub fn eval_inner(&mut self, obj: &Value, f: &ExecutionNoun, depth: usize) -> (res: Result<(Value, Value, u64), RelationError>)
        requires
            old(self).wf(),
            obj.ok(old(self).next()),
        ensures
            res is Err ==> res->Err_0 is Limit || res->Err_0 is Unsupported || res->Err_0 is Malformed,
            res is Ok ==> eval_ok(final(self), old(self), &res->Ok_0.0, &res->Ok_0.1, res->Ok_0.2),
            res is Ok ==> reduces_to(final(self), *obj, *f, res->Ok_0.0),
        decreases MAX_CALLS - old(self).calls, 0nat,
    {
        let ghost start = *self;
        if self.calls >= MAX_CALLS || depth > MAX_DEPTH {
            return Err(RelationError::Limit);
        }
        self.calls = self.calls + 1;
        let ghost s0 = *self;
        let (head, body) = match f {
            ExecutionNoun::Pair(h, b) => (h, b),
            ExecutionNoun::Atom(_) => {
                return Err(RelationError::Malformed);
            },
        };
        let tag = match &**head {
            ExecutionNoun::Atom(t) => *t,
            ExecutionNoun::Pair(_, _) => {
                return Err(RelationError::Malformed);
            },
        };
        let one = Value::Constant(Goldilocks::one());
        proof {
            assert(head_tag(*f) == Some(tag));
            if !(tag == 0 || tag == 1 || tag == 3 || tag == 4 || tag == 5 || tag == 6 || tag == 7 || tag == 9) {
                lemma_outside_fragment(*f);
            }
        }
        if tag == 0 {
            let a = match &**body {
                ExecutionNoun::Atom(a) => *a,
                ExecutionNoun::Pair(_, _) => {
                    return Err(RelationError::Malformed);
                },
            };
            if a == 0 {
                let h = self.axis_hash(obj)?;
                proof {
                    assert forall|s: ExecutionNoun| #[trigger] nox_reduce(s, *f) == None::<ExecutionNoun> by {}
                }
                return Ok((h, one, 1));
            }
            let v = walk_axis(obj, a, "axis into atom")?;
            proof {
                assert forall|z: Seq<nat>| #[trigger] satisfied_by(self, z) implies (nox_reduce(den(*obj, z), *f) matches Some(
                    r,
                ) ==> den(v, z) == r) by {
                    lemma_den_axis(*obj, a as nat, z);
                }
            }
            return Ok((v, one, 1));
        }
        if tag == 1 {
            let c = constant(body, depth + 1)?;
            proof {
                lemma_value_mono(&c, 0, self.next());
                assert forall|z: Seq<nat>| #[trigger] satisfied_by(self, z) implies (nox_reduce(den(*obj, z), *f) matches Some(
                    r,
                ) ==> den(c, z) == r) by {
                    assert(den(c, z) == canon(**body));
                }
            }
            return Ok((c, one, 1));
        }
        if tag == 15 {
            let (v, c, m) = self.eval(obj, body, depth + 1)?;
            let ghost s1 = *self;
            let out = self.hash(&v)?;
            proof {
                lemma_value_mono(&c, s1.next(), self.next());
            }
            let ghost s2 = *self;
            let cost = self.add(&c, &Value::Constant(Goldilocks::new(25)), false)?;
            proof {
                lemma_value_mono(&out, s2.next(), self.next());
            }
            return Ok((out, cost, m + 25));
        }
        if tag == 13 {
            let (v, c, m) = self.eval(obj, body, depth + 1)?;
            let ghost s1 = *self;
            let bits = self.bits(&v, 32)?;
            let word = self.pack(&bits, 0, 32)?;
            let out = self.add(&Value::Constant(Goldilocks::new(0xffff_ffffu64)), &word, true)?;
            proof {
                lemma_value_mono(&c, s1.next(), self.next());
            }
            let ghost s2 = *self;
            let cost = self.add(&c, &Value::Constant(Goldilocks::new(32)), false)?;
            proof {
                lemma_value_mono(&out, s2.next(), self.next());
            }
            return Ok((out, cost, m + 32));
        }
        if tag == 8 {
            let (v, c, m) = self.eval(obj, body, depth + 1)?;
            let ghost s1 = *self;
            let a = self.linear(&v)?;
            let i = self.wire(Op::Inverse(clone_linear(&a)))?;
            let check = self.product(a, vec![(i, Goldilocks::one())])?;
            let lc = self.linear(&check)?;
            self.enforce_equal(lc, vec![(0usize, Goldilocks::one())])?;
            proof {
                lemma_value_mono(&c, s1.next(), self.next());
            }
            let ghost s2 = *self;
            let cost = self.add(&c, &Value::Constant(Goldilocks::new(64)), false)?;
            return Ok((Value::Wire(i), cost, m + 64));
        }
        if tag == 2 || tag == 3 || tag == 5 || tag == 6 || tag == 7 || tag == 9 || tag == 10 || tag == 11
            || tag == 12 || tag == 14 {
            let (a, b) = match &**body {
                ExecutionNoun::Pair(a, b) => (a, b),
                ExecutionNoun::Atom(_) => {
                    return Err(RelationError::Malformed);
                },
            };
            let (av, ac, am) = self.eval(obj, a, depth + 1)?;
            let ghost s1 = *self;
            proof {
                lemma_value_mono(obj, s0.next(), s1.next());
            }
            let (bv, bc, bm) = self.eval(obj, b, depth + 1)?;
            let ghost s2 = *self;
            proof {
                lemma_value_mono(&av, s1.next(), s2.next());
                lemma_value_mono(&ac, s1.next(), s2.next());
            }
            let own_cost: u64 = if tag == 10 {
                64
            } else if tag >= 11 {
                32
            } else {
                1
            };
            let ab = self.add(&ac, &bc, false)?;
            let mut cost = self.add(&Value::Constant(Goldilocks::new(own_cost)), &ab, false)?;
            let mut max: u64 = own_cost + am + bm;
            let ghost s3 = *self;
            proof {
                lemma_value_mono(&av, s2.next(), s3.next());
                lemma_value_mono(&bv, s2.next(), s3.next());
            }
            let value = if tag == 2 {
                let continuation = static_noun(&bv, depth + 1)?;
                let (v, c, m) = self.eval(&av, &continuation, depth + 1)?;
                proof {
                    lemma_value_mono(&cost, s3.next(), self.next());
                }
                let ghost s4 = *self;
                cost = self.add(&cost, &c, false)?;
                proof {
                    lemma_value_mono(&v, s4.next(), self.next());
                }
                max = max + m;
                v
            } else if tag == 3 {
                let p = Value::Pair(Box::new(av), Box::new(bv));
                proof {
                    assert forall|z: Seq<nat>| #[trigger] satisfied_by(self, z) implies (nox_reduce(den(*obj, z), *f) matches Some(
                        r,
                    ) ==> den(p, z) == r) by {
                        lemma_satisfied_shrink(self, &s1, z);
                        lemma_satisfied_shrink(self, &s2, z);
                    }
                }
                p
            } else if tag == 5 || tag == 6 {
                let w = self.add(&av, &bv, tag == 6)?;
                proof {
                    assert forall|z: Seq<nat>| #[trigger] satisfied_by(self, z) implies (nox_reduce(den(*obj, z), *f) matches Some(
                        r,
                    ) ==> den(w, z) == r) by {
                        lemma_satisfied_shrink(self, &s1, z);
                        lemma_satisfied_shrink(self, &s2, z);
                        lemma_value_mono(&av, s3.next(), z.len());
                        lemma_value_mono(&bv, s3.next(), z.len());
                        lemma_den_atom(av, z);
                        lemma_den_atom(bv, z);
                        lemma_den_atom(w, z);
                    }
                }
                w
            } else if tag == 7 {
                let la = self.linear(&av)?;
                let lb = self.linear(&bv)?;
                let w = self.product(la, lb)?;
                proof {
                    assert forall|z: Seq<nat>| #[trigger] satisfied_by(self, z) implies (nox_reduce(den(*obj, z), *f) matches Some(
                        r,
                    ) ==> den(w, z) == r) by {
                        lemma_satisfied_shrink(self, &s1, z);
                        lemma_satisfied_shrink(self, &s2, z);
                        lemma_value_mono(&av, s3.next(), z.len());
                        lemma_value_mono(&bv, s3.next(), z.len());
                        lemma_atom_lin(av, la@, z);
                        lemma_atom_lin(bv, lb@, z);
                        lemma_den_atom(av, z);
                        lemma_den_atom(bv, z);
                        lemma_den_atom(w, z);
                    }
                }
                w
            } else if tag == 9 {
                let w = self.equal(&av, &bv)?;
                proof {
                    assert forall|z: Seq<nat>| #[trigger] satisfied_by(self, z) implies (nox_reduce(den(*obj, z), *f) matches Some(
                        r,
                    ) ==> den(w, z) == r) by {
                        lemma_satisfied_shrink(self, &s1, z);
                        lemma_satisfied_shrink(self, &s2, z);
                        if nox_reduce(den(*obj, z), *f) is Some {
                            lemma_value_mono(&av, s3.next(), z.len());
                            lemma_value_mono(&bv, s3.next(), z.len());
                            assert(!(av is Pair));
                            assert(!(bv is Pair));
                            lemma_den_atom(av, z);
                            lemma_den_atom(bv, z);
                            lemma_den_atom(w, z);
                        }
                    }
                }
                w
            } else if tag == 10 {
                self.less_than(&av, &bv)?
            } else {
                self.word_binary(tag, &av, &bv)?
            };
            proof {
                if tag != 2 {
                    lemma_value_mono(&cost, s3.next(), self.next());
                }
            }
            return Ok((value, cost, max));
        }
        if tag == 4 {
            let (t, arms) = match &**body {
                ExecutionNoun::Pair(a, b) => (a, b),
                ExecutionNoun::Atom(_) => {
                    return Err(RelationError::Malformed);
                },
            };
            let (ya, na) = match &**arms {
                ExecutionNoun::Pair(a, b) => (a, b),
                ExecutionNoun::Atom(_) => {
                    return Err(RelationError::Malformed);
                },
            };
            let (tv, tc, tm) = self.eval(obj, t, depth + 1)?;
            let ghost s1 = *self;
            let s = self.nonzero(&tv)?;
            let ghost s1b = *self;
            let parent = self.active.copy();
            let yes = self.add(&one, &s, true)?;
            let lp = self.linear(&parent)?;
            let ly = self.linear(&yes)?;
            let act_yes = self.product(lp, ly)?;
            self.active = act_yes;
            let ghost s2 = *self;
            proof {
                lemma_value_mono(obj, s0.next(), s2.next());
                lemma_value_mono(&s, s1b.next(), s2.next());
                lemma_value_mono(&parent, s1b.next(), s2.next());
                lemma_value_mono(&tc, s1.next(), s2.next());
            }
            let (av, ac, am) = self.eval(obj, ya, depth + 1)?;
            let ghost s3 = *self;
            proof {
                lemma_value_mono(obj, s2.next(), s3.next());
                lemma_value_mono(&s, s2.next(), s3.next());
                lemma_value_mono(&parent, s2.next(), s3.next());
            }
            let lp = self.linear(&parent)?;
            let ls = self.linear(&s)?;
            let act_no = self.product(lp, ls)?;
            self.active = act_no;
            let ghost s4 = *self;
            proof {
                lemma_value_mono(obj, s3.next(), s4.next());
            }
            let (bv, bc, bm) = self.eval(obj, na, depth + 1)?;
            let ghost s5 = *self;
            proof {
                lemma_value_mono(&parent, s3.next(), s5.next());
                lemma_value_mono(&s, s3.next(), s5.next());
                lemma_value_mono(&av, s3.next(), s5.next());
                lemma_value_mono(&ac, s3.next(), s5.next());
                lemma_value_mono(&tc, s2.next(), s5.next());
            }
            self.active = parent;
            let value = self.mux(&s, &av, &bv)?;
            let ghost s6 = *self;
            proof {
                lemma_value_mono(&s, s5.next(), s6.next());
                lemma_value_mono(&ac, s5.next(), s6.next());
                lemma_value_mono(&bc, s5.next(), s6.next());
                lemma_value_mono(&tc, s5.next(), s6.next());
            }
            let arm = self.mux(&s, &ac, &bc)?;
            let ghost s7 = *self;
            proof {
                lemma_value_mono(&tc, s6.next(), s7.next());
            }
            let c = self.add(&tc, &arm, false)?;
            let c = self.add(&one, &c, false)?;
            proof {
                lemma_value_mono(&value, s6.next(), self.next());
                assert forall|z: Seq<nat>| #[trigger] satisfied_by(self, z) implies (nox_reduce(den(*obj, z), *f) matches Some(
                    r,
                ) ==> den(value, z) == r) by {
                    lemma_satisfied_shrink(self, &s6, z);
                    lemma_satisfied_shrink(self, &s3, z);
                    lemma_satisfied_shrink(self, &s1b, z);
                    lemma_satisfied_shrink(self, &s1, z);
                    if nox_reduce(den(*obj, z), *f) is Some {
                        assert(den(tv, z) == ExecutionNoun::Atom(0));
                        assert(!(tv is Pair));
                        lemma_value_mono(&tv, s1.next(), z.len());
                        lemma_den_atom(tv, z);
                        assert(atom_val(tv, z) == 0);
                        assert(atom_val(s, z) == 0);
                    }
                }
            }
            let worst = if am >= bm { am } else { bm };
            return Ok((value, c, 1 + tm + worst));
        }
        if tag == 17 {
            return self.look(obj, body, depth);
        }
        if tag == 16 {
            let (t, check) = match &**body {
                ExecutionNoun::Pair(a, b) => (a, b),
                ExecutionNoun::Atom(_) => {
                    return Err(RelationError::Malformed);
                },
            };
            let (tv, tag_cost, tag_max) = self.eval(obj, t, depth + 1)?;
            let ghost s1 = *self;
            self.linear(&tv)?;
            let act = self.linear(&self.active)?;
            let w = self.wire(Op::Secret(act))?;
            let witness = Value::Wire(w);
            proof {
                lemma_value_mono(obj, s0.next(), self.next());
                lemma_value_mono(&tag_cost, s1.next(), self.next());
            }
            assert(witness.ok(self.next()));
            let check_obj = Value::Pair(Box::new(witness.copy()), Box::new(obj.copy()));
            assert(check_obj.ok(self.next()));
            let ghost s2 = *self;
            let (checked, check_cost, check_max) = self.eval(&check_obj, check, depth + 1)?;
            let lc = self.linear(&checked)?;
            self.enforce_equal(lc, Vec::new())?;
            proof {
                lemma_value_mono(&tag_cost, s2.next(), self.next());
                lemma_value_mono(&witness, s2.next(), self.next());
            }
            let cost = self.add(&tag_cost, &check_cost, false)?;
            let cost = self.add(&one, &cost, false)?;
            return Ok((witness, cost, 1 + tag_max + check_max));
        }
        Err(RelationError::Unsupported("pattern requires an execution gadget"))
    }

    /// A fresh wire equal to an atom value, for a public coordinate.
    pub fn coordinate(&mut self, value: &Value) -> (res: Result<usize, RelationError>)
        requires
            old(self).wf(),
            value.ok(old(self).next()),
        ensures
            res is Err ==> res->Err_0 is Limit || res->Err_0 is Unsupported,
            res is Ok ==> gadget_ok(final(self), old(self)) && res->Ok_0 < final(self).next(),
    {
        let l = self.linear(value)?;
        let v = self.alloc_linear(l)?;
        match v {
            Value::Wire(i) => Ok(i),
            _ => Err(RelationError::Unsupported("atom required")),
        }
    }

    /// Pattern 17: a lookup of (namespace, key) under the state root held at
    /// axes 4, 10, 22 and 23 of the subject.
    pub fn look(&mut self, obj: &Value, body: &ExecutionNoun, depth: usize) -> (res: Result<(Value, Value, u64), RelationError>)
        requires
            old(self).wf(),
            obj.ok(old(self).next()),
            depth <= MAX_DEPTH,
        ensures
            res is Err ==> res->Err_0 is Limit || res->Err_0 is Unsupported || res->Err_0 is Malformed,
            res is Ok ==> {
                &&& final(self).wf()
                &&& final(self).grows(old(self))
                &&& final(self).active == old(self).active
                &&& res->Ok_0.0.ok(final(self).next())
                &&& res->Ok_0.1.ok(final(self).next())
                &&& res->Ok_0.2 <= 64 * (final(self).calls - old(self).calls) + 64
            },
        decreases MAX_CALLS - old(self).calls, 2nat,
    {
        let (ns_f, key_f) = match body {
            ExecutionNoun::Pair(a, b) => (a, b),
            ExecutionNoun::Atom(_) => {
                return Err(RelationError::Malformed);
            },
        };
        if self.calls >= MAX_CALLS {
            return Err(RelationError::Limit);
        }
        let ghost s0 = *self;
        let (ns, nc, nm) = self.eval(obj, ns_f, depth + 1)?;
        let ghost s1 = *self;
        proof {
            lemma_value_mono(obj, s0.next(), s1.next());
        }
        let (key, kc, km) = self.eval(obj, key_f, depth + 1)?;
        let ghost s2 = *self;
        proof {
            lemma_value_mono(obj, s1.next(), s2.next());
            lemma_value_mono(&ns, s1.next(), s2.next());
            lemma_value_mono(&nc, s1.next(), s2.next());
        }
        let r0 = walk_axis(obj, 4, "look root shape")?;
        let r1 = walk_axis(obj, 10, "look root shape")?;
        let r2 = walk_axis(obj, 22, "look root shape")?;
        let r3 = walk_axis(obj, 23, "look root shape")?;
        let active = self.active.copy();
        let la = self.linear(&active)?;
        let root = [self.linear(&r0)?, self.linear(&r1)?, self.linear(&r2)?, self.linear(&r3)?];
        let lns = self.linear(&ns)?;
        let lkey = self.linear(&key)?;
        let value = self.wire(Op::Look { active: la, root, namespace: lns, key: lkey })?;
        let ghost s3 = *self;
        proof {
            lemma_value_mono(&active, s2.next(), s3.next());
            lemma_value_mono(&r0, s2.next(), s3.next());
            lemma_value_mono(&r1, s2.next(), s3.next());
            lemma_value_mono(&r2, s2.next(), s3.next());
            lemma_value_mono(&r3, s2.next(), s3.next());
            lemma_value_mono(&ns, s2.next(), s3.next());
            lemma_value_mono(&key, s2.next(), s3.next());
            lemma_value_mono(&nc, s2.next(), s3.next());
            lemma_value_mono(&kc, s2.next(), s3.next());
        }
        let c_active = self.coordinate(&active)?;
        let c0 = self.coordinate(&r0)?;
        let c1 = self.coordinate(&r1)?;
        let c2 = self.coordinate(&r2)?;
        let c3 = self.coordinate(&r3)?;
        let c_ns = self.coordinate(&ns)?;
        let c_key = self.coordinate(&key)?;
        let record = LookupCoordinates { active: c_active, root: [c0, c1, c2, c3], namespace: c_ns, key: c_key, value };
        let ghost s4 = *self;
        self.lookups.push(record);
        proof {
            assert forall|i: int| 0 <= i < self.lookups@.len() implies (#[trigger] self.lookups@[i]).ok(self.next()) by {
                if i < s4.lookups@.len() {
                    assert(s4.lookups@[i].ok(s4.next()));
                }
            }
            lemma_value_mono(&nc, s3.next(), self.next());
            lemma_value_mono(&kc, s3.next(), self.next());
        }
        let ghost s5 = *self;
        if self.state.is_some() {
            let tables = self.state.as_ref().unwrap().copy();
            let roots = [r0, r1, r2, r3];
            self.authenticate_lookup(&roots, &ns, &key, &Value::Wire(value), &tables)?;
            proof {
                lemma_value_mono(&nc, s5.next(), self.next());
                lemma_value_mono(&kc, s5.next(), self.next());
            }
        }
        let ghost s6 = *self;
        let cost = self.add(&nc, &kc, false)?;
        let cost = self.add(&Value::Constant(Goldilocks::one()), &cost, false)?;
        proof {
            assert(Value::Wire(value).ok(self.next()));
        }
        Ok((Value::Wire(value), cost, 1 + nm + km))
    }

    /// Pin the root to the tables' root and the looked-up value to the
    /// table entry the (namespace, key) selects, exactly one of which must
    /// be selected.
    pub fn authenticate_lookup(
        &mut self,
        roots: &[Value; 4],
        ns: &Value,
        key: &Value,
        value: &Value,
        state: &PublicStateTables,
    ) -> (res: Result<(), RelationError>)
        requires
            old(self).wf(),
            forall|i: int| 0 <= i < 4 ==> (#[trigger] roots@[i]).ok(old(self).next()),
            ns.ok(old(self).next()),
            key.ok(old(self).next()),
            value.ok(old(self).next()),
        ensures
            res is Err ==> res->Err_0 is Limit || res->Err_0 is Unsupported,
            res is Ok ==> gadget_ok(final(self), old(self)),
    {
        let ghost start = *self;
        let mut i: usize = 0;
        while i < 4
            invariant
                self.wf(),
                self.fixed(&start),
                self.active == start.active,
                i <= 4,
                forall|j: int| 0 <= j < 4 ==> (#[trigger] roots@[j]).ok(self.next()),
                ns.ok(self.next()),
                key.ok(self.next()),
                value.ok(self.next()),
            decreases 4 - i,
        {
            let la = self.linear(&roots[i])?;
            self.enforce_equal(la, vec![(0usize, state.root[i])])?;
            i = i + 1;
        }
        let one = Value::Constant(Goldilocks::one());
        let mut selected: Linear = Vec::new();
        let mut expected: Linear = Vec::new();
        let mut namespace: usize = 0;
        while namespace < 10
            invariant
                self.wf(),
                self.fixed(&start),
                self.active == start.active,
                namespace <= 10,
                ns.ok(self.next()),
                key.ok(self.next()),
                value.ok(self.next()),
                lin_ok(selected@, self.next()),
                lin_ok(expected@, self.next()),
                one is Constant,
            decreases 10 - namespace,
        {
            let ghost b0 = *self;
            let delta = self.add(ns, &Value::Constant(Goldilocks::new(namespace as u64)), true)?;
            let unequal = self.nonzero(&delta)?;
            let namespace_equal = self.add(&one, &unequal, true)?;
            proof {
                lemma_value_mono(key, b0.next(), self.next());
                lemma_value_mono(ns, b0.next(), self.next());
                lemma_value_mono(value, b0.next(), self.next());
            }
            let fields = &state.dimensions[namespace];
            let mut index: usize = 0;
            while index < fields.len()
                invariant
                    self.wf(),
                    self.fixed(&start),
                    self.active == start.active,
                    index <= fields@.len(),
                    ns.ok(self.next()),
                    key.ok(self.next()),
                    value.ok(self.next()),
                    namespace_equal.ok(self.next()),
                    lin_ok(selected@, self.next()),
                    lin_ok(expected@, self.next()),
                    one is Constant,
                decreases fields@.len() - index,
            {
                if self.ops.len() > MAX_ROWS || self.rows.len() > MAX_ROWS {
                    return Err(RelationError::Limit);
                }
                let ghost b1 = *self;
                let field = fields[index];
                let delta = self.add(key, &Value::Constant(Goldilocks::new(index as u64)), true)?;
                let unequal = self.nonzero(&delta)?;
                let index_equal = self.add(&one, &unequal, true)?;
                proof {
                    lemma_value_mono(&namespace_equal, b1.next(), self.next());
                }
                let ln = self.linear(&namespace_equal)?;
                let li = self.linear(&index_equal)?;
                let selector = self.product(ln, li)?;
                let l = self.linear(&selector)?;
                let mut j: usize = 0;
                while j < l.len()
                    invariant
                        j <= l@.len(),
                        lin_ok(l@, self.next()),
                        lin_ok(selected@, self.next()),
                        lin_ok(expected@, self.next()),
                    decreases l@.len() - j,
                {
                    let (w, c) = l[j];
                    selected.push((w, c));
                    expected.push((w, c.mul(field)));
                    j = j + 1;
                }
                proof {
                    lemma_value_mono(key, b1.next(), self.next());
                    lemma_value_mono(ns, b1.next(), self.next());
                    lemma_value_mono(value, b1.next(), self.next());
                }
                index = index + 1;
            }
            namespace = namespace + 1;
        }
        self.enforce_equal(selected, vec![(0usize, Goldilocks::one())])?;
        let lv = self.linear(value)?;
        self.enforce_equal(lv, expected)?;
        Ok(())
    }
}

} // verus!
