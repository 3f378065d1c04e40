//! The formula evaluator of the tagged kernel: each opcode becomes gates.
use super::builder::{digest_ok, lemma_node_mono, minus_one, Builder, Node, MAX_DEPTH, MAX_NODES, ONE, ZERO};
use super::word::{lemma_grows_trans, wires_ok};
use crate::execution::relation::{ExecutionNoun as Noun, RelationError as Error};
use super::meaning::{
    in_tagged_fragment, lemma_node_den_axis, lemma_one_times, lemma_tagged_outside, lemma_tagged_reduces_shrink, lemma_tagged_shrink,
    node_axis, node_den, tagged_reduces_to, tagged_satisfied_by,
};
use crate::execution::relation_eval::{lemma_shift_step, lemma_top_bit};
use crate::execution::relation_semantics::{canon, head_tag, lemma_add_neg_term, lemma_two_terms, nox_reduce};
use crate::field::{fadd, fsub, Goldilocks};
use vstd::prelude::*;

verus! {

/// The largest native cost of `f` over every subject and branch choice, as
/// the kernel accounts it: axis and quote 1; compose 2 plus both parts;
/// cons, add, sub, mul and eq 1 plus both operands; inverse 64; ordering
/// 64 and xor, and, shift 32 plus both operands; not 32; branch 1 plus the
/// test plus the dearer arm; hash 25; anything malformed 0.
pub open spec fn max_cost(f: Noun) -> nat
    decreases f,
{
    match f {
        Noun::Pair(head, body) => match *head {
            Noun::Atom(tag) => {
                if tag == 0 {
                    match *body {
                        Noun::Atom(_) => 1,
                        _ => 0,
                    }
                } else if tag == 1 {
                    1
                } else if tag == 2 {
                    match *body {
                        Noun::Pair(subject, quoted) => match *quoted {
                            Noun::Pair(q, cont) => if *q == Noun::Atom(1) {
                                2 + max_cost(*subject) + max_cost(*cont)
                            } else {
                                0
                            },
                            _ => 0,
                        },
                        _ => 0,
                    }
                } else if tag == 10 || tag == 11 || tag == 12 || tag == 14 {
                    match *body {
                        Noun::Pair(l, r) => (if tag == 10 { 64nat } else { 32nat }) + max_cost(*l) + max_cost(*r),
                        _ => 0,
                    }
                } else if tag == 13 {
                    32 + max_cost(*body)
                } else if tag == 3 || tag == 5 || tag == 6 || tag == 7 || tag == 9 {
                    match *body {
                        Noun::Pair(l, r) => 1 + max_cost(*l) + max_cost(*r),
                        _ => 0,
                    }
                } else if tag == 8 {
                    64 + max_cost(*body)
                } else if tag == 4 {
                    match *body {
                        Noun::Pair(t, arms) => match *arms {
                            Noun::Pair(y, n) => 1 + max_cost(*t) + vstd::math::max(
                                max_cost(*y) as int,
                                max_cost(*n) as int,
                            ) as nat,
                            _ => 0,
                        },
                        _ => 0,
                    }
                } else if tag == 15 {
                    25 + max_cost(*body)
                } else {
                    0
                }
            },
            _ => 0,
        },
        _ => 0,
    }
}

/// The maximal cost is at most 64 per formula node.
pub proof fn lemma_max_cost_bound(f: Noun)
    ensures
        max_cost(f) <= 64 * f.size(),
    decreases f,
{
    if let Noun::Pair(head, body) = f {
        if let Noun::Atom(tag) = *head {
            match *body {
                Noun::Pair(l, r) => {
                    lemma_max_cost_bound(*l);
                    lemma_max_cost_bound(*r);
                    if let Noun::Pair(q, c) = *r {
                        lemma_max_cost_bound(*c);
                    }
                    if tag == 4 {
                        if let Noun::Pair(y, n) = *r {
                            lemma_max_cost_bound(*y);
                            lemma_max_cost_bound(*n);
                        }
                    }
                },
                Noun::Atom(_) => {},
            }
            lemma_max_cost_bound(*body);
        }
    }
}

/// The postcondition shared by the evaluator's steps.
pub open spec fn step_ok(b: &Builder, old: &Builder, node: &Node, cost: usize) -> bool {
    &&& b.wf()
    &&& b.grows(old)
    &&& node.ok(b.next())
    &&& cost < b.next()
}

impl Builder {
    /// A malformed formula: unsatisfiable when active, the zero atom.
    pub fn invalid(&mut self, active: usize) -> (res: Result<(Box<Node>, usize, u64), Error>)
        requires
            old(self).wf(),
            active < old(self).next(),
        ensures
            res is Err ==> res->Err_0 == Error::Limit,
            res is Ok ==> step_ok(final(self), old(self), &res->Ok_0.0, res->Ok_0.1) && res->Ok_0.2 == 0,
    {
        self.zero_product(ONE, vec![(active, Goldilocks::one())])?;
        let z = self.zero()?;
        Ok((z, ZERO, 0))
    }

    /// Gates for `formula` applied to the subject `obj`, enforced only when
    /// `active` is one. Returns the result node, the cost wire and the
    /// maximal cost.
    #[verifier::spinoff_prover]
    #[verifier::rlimit(50)]
    pub fn eval(&mut self, obj: &Node, formula: &Noun, active: usize, depth: usize) -> (res: Result<(Box<Node>, usize, u64), Error>)
        requires
            old(self).wf(),
            obj.ok(old(self).next()),
            active < old(self).next(),
            formula.size() <= MAX_NODES,
        ensures
            res is Err ==> res->Err_0 is Limit || res->Err_0 is Unsupported,
            res is Ok ==> {
                &&& step_ok(final(self), old(self), &res->Ok_0.0, res->Ok_0.1)
                &&& res->Ok_0.2 == max_cost(*formula)
                &&& tagged_reduces_to(final(self), *obj, *formula, active, *res->Ok_0.0)
            },
        decreases formula,
    {
        let ghost start = *self;
        proof {
            lemma_max_cost_bound(*formula);
        }
        if self.calls >= MAX_NODES || depth >= MAX_DEPTH {
            return Err(Error::Limit);
        }
        self.calls = self.calls + 1;
        let ghost s0 = *self;
        let (head, body) = match formula {
            Noun::Pair(h, b) => (h, b),
            Noun::Atom(_) => {
                return self.invalid(active);
            },
        };
        assert(formula.size() == 1 + head.size() + body.size());
        let tag = match &**head {
            Noun::Atom(t) => *t,
            Noun::Pair(_, _) => {
                return self.invalid(active);
            },
        };
        proof {
            assert(head_tag(*formula) == Some(tag));
            if !(tag == 0 || tag == 1 || tag == 3 || tag == 5 || tag == 6 || tag == 7) {
                lemma_tagged_outside(*formula);
            }
        }
        if tag == 0 {
            let axis = match &**body {
                Noun::Atom(x) => *x,
                Noun::Pair(_, _) => {
                    return self.invalid(active);
                },
            };
            if axis == 0 {
                let digest = self.structural_digest(obj)?;
                let ghost s1 = *self;
                let n = self.digest_noun(digest, active)?;
                proof {
                    lemma_grows_trans(&s0, &s1, self);
                    lemma_grows_trans(&start, &s0, self);
                    assert forall|s: Noun| #[trigger] nox_reduce(s, *formula) == None::<Noun> by {}
                }
                return Ok((n, active, 1));
            }
            let mut node = Box::new(obj.copy());
            let lz = axis.leading_zeros();
            proof {
                vstd::std_specs::bits::axiom_u64_leading_zeros(axis);
                let t = (63 - lz) as u64;
                assert((axis >> t) & 1u64 != 0u64);
                if t < 63 {
                    assert(axis >> ((t + 1) as u64) == 0);
                }
                lemma_top_bit(axis, t);
            }
            let bits: u32 = 63 - lz;
            let mut bit: u32 = bits;
            while bit > 0
                invariant
                    self.wf(),
                    self.grows(&s0),
                    bit <= 63,
                    active < self.next(),
                    node.ok(self.next()),
                    match node_axis(*obj, (axis >> (bit as u64)) as nat) {
                        Some(m) => *node == m,
                        None => true,
                    },
                    node_axis(*obj, (axis >> (bit as u64)) as nat) is Some || (axis >> (bit as u64)) > 0,
                decreases bit,
            {
                bit = bit - 1;
                proof {
                    lemma_shift_step(axis, bit as u64);
                    assert((axis >> bit) == (axis >> (bit as u64)));
                }
                let ghost before = *self;
                self.zero_product(active, vec![(ONE, Goldilocks::one()), (node.tag, minus_one())])?;
                let next_node = match &node.children {
                    Some((a, b)) => {
                        if (axis >> bit) & 1 == 0 {
                            Box::new(a.copy())
                        } else {
                            Box::new(b.copy())
                        }
                    },
                    None => self.zero()?,
                };
                node = next_node;
                proof {
                    lemma_grows_trans(&s0, &before, self);
                }
            }
            proof {
                assert(axis >> 0u64 == axis) by (bit_vector);
            }
            let ghost s1 = *self;
            let ghost gn = *node;
            let m = self.mask(&node, active)?;
            proof {
                lemma_grows_trans(&s0, &s1, self);
                lemma_grows_trans(&start, &s0, self);
                assert forall|z: Seq<nat>| #[trigger] tagged_satisfied_by(self, z) implies (z[active as int] == 1 && in_tagged_fragment(*formula) ==> (
                nox_reduce(node_den(*obj, z), *formula) matches Some(r) ==> node_den(*m, z) == r)) by {
                    lemma_node_den_axis(*obj, axis as nat, z);
                    if z[active as int] == 1 {
                        assert(node_den(*m, z) == node_den(gn, z));
                    }
                }
            }
            return Ok((m, active, 1));
        }
        if tag == 1 {
            let q = self.quoted(body, active)?;
            proof {
                lemma_grows_trans(&start, &s0, self);
                assert forall|z: Seq<nat>| #[trigger] tagged_satisfied_by(self, z) implies (z[active as int] == 1 && in_tagged_fragment(*formula) ==> (
                nox_reduce(node_den(*obj, z), *formula) matches Some(r) ==> node_den(*q, z) == r)) by {
                    if z[active as int] == 1 {
                        assert(node_den(*q, z) == canon(**body));
                    }
                }
            }
            return Ok((q, active, 1));
        }
        if tag == 2 {
            let (subject, quoted) = match &**body {
                Noun::Pair(s, q) => (s, q),
                Noun::Atom(_) => {
                    return self.invalid(active);
                },
            };
            assert(body.size() == 1 + subject.size() + quoted.size());
            let continuation = match &**quoted {
                Noun::Pair(q1, c) => {
                    assert(quoted.size() == 1 + q1.size() + c.size());
                    match &**q1 {
                        Noun::Atom(one) => {
                            if *one != 1 {
                                return Err(Error::Unsupported("tagged composition requires literal quoted continuation"));
                            }
                        },
                        Noun::Pair(_, _) => {
                            return Err(Error::Unsupported("tagged composition requires literal quoted continuation"));
                        },
                    }
                    c
                },
                Noun::Atom(_) => {
                    return Err(Error::Unsupported("tagged composition requires literal quoted continuation"));
                },
            };
            proof {
                lemma_max_cost_bound(**subject);
                lemma_max_cost_bound(**continuation);
            }
            let (sub, subject_cost, subject_max) = self.eval(obj, subject, active, depth + 1)?;
            let ghost s1 = *self;
            let (out, cost, max) = self.eval(&sub, continuation, active, depth + 1)?;
            let ghost s2 = *self;
            let total = self.lin(vec![(active, Goldilocks::new(2)), (subject_cost, Goldilocks::one()), (cost, Goldilocks::one())])?;
            proof {
                lemma_node_mono(&out, s2.next(), self.next());
                lemma_grows_trans(&s0, &s1, &s2);
                lemma_grows_trans(&s0, &s2, self);
                lemma_grows_trans(&start, &s0, self);
                assert(**quoted == Noun::Pair(Box::new(Noun::Atom(1)), *continuation));
            }
            return Ok((out, total, 2 + subject_max + max));
        }
        if tag == 10 || tag == 11 || tag == 12 || tag == 14 {
            let (left, right) = match &**body {
                Noun::Pair(l, r) => (l, r),
                Noun::Atom(_) => {
                    return self.invalid(active);
                },
            };
            assert(body.size() == 1 + left.size() + right.size());
            proof {
                lemma_max_cost_bound(**left);
                lemma_max_cost_bound(**right);
            }
            let (lv, lc, lm) = self.eval(obj, left, active, depth + 1)?;
            let ghost s1 = *self;
            proof {
                lemma_node_mono(obj, s0.next(), s1.next());
            }
            let (rv, rc, rm) = self.eval(obj, right, active, depth + 1)?;
            let ghost s2 = *self;
            proof {
                lemma_node_mono(&lv, s1.next(), s2.next());
            }
            let a = self.atom(&lv, active)?;
            let b = self.atom(&rv, active)?;
            let ghost s3 = *self;
            let value = if tag == 10 {
                self.unsigned_less(a, b)?
            } else {
                self.word_binary(tag, a, b, active)?
            };
            let ghost s4 = *self;
            let value = self.mul(active, value)?;
            let out = self.node(ZERO, value, None)?;
            let own: u64 = if tag == 10 { 64 } else { 32 };
            let ghost s5 = *self;
            let cost = self.lin(vec![(active, Goldilocks::new(own)), (lc, Goldilocks::one()), (rc, Goldilocks::one())])?;
            proof {
                lemma_node_mono(&out, s5.next(), self.next());
                lemma_grows_trans(&s0, &s1, &s2);
                lemma_grows_trans(&s0, &s2, &s3);
                lemma_grows_trans(&s0, &s3, &s4);
                lemma_grows_trans(&s0, &s4, self);
                lemma_grows_trans(&start, &s0, self);
            }
            return Ok((out, cost, own + lm + rm));
        }
        if tag == 13 {
            proof {
                lemma_max_cost_bound(**body);
            }
            let (v, c, m) = self.eval(obj, body, active, depth + 1)?;
            let ghost s1 = *self;
            let value = self.atom(&v, active)?;
            let value = self.word_not(value, active)?;
            let ghost s2 = *self;
            let value = self.mul(active, value)?;
            let out = self.node(ZERO, value, None)?;
            let ghost s3 = *self;
            let cost = self.lin(vec![(active, Goldilocks::new(32)), (c, Goldilocks::one())])?;
            proof {
                lemma_node_mono(&out, s3.next(), self.next());
                lemma_grows_trans(&s0, &s1, &s2);
                lemma_grows_trans(&s0, &s2, self);
                lemma_grows_trans(&start, &s0, self);
            }
            return Ok((out, cost, 32 + m));
        }
        if tag == 3 || tag == 5 || tag == 6 || tag == 7 || tag == 9 {
            let (a, b) = match &**body {
                Noun::Pair(l, r) => (l, r),
                Noun::Atom(_) => {
                    return self.invalid(active);
                },
            };
            assert(body.size() == 1 + a.size() + b.size());
            proof {
                lemma_max_cost_bound(**a);
                lemma_max_cost_bound(**b);
            }
            let (av, ac, am) = self.eval(obj, a, active, depth + 1)?;
            let ghost s1 = *self;
            proof {
                lemma_node_mono(obj, s0.next(), s1.next());
            }
            let (bv, bc, bm) = self.eval(obj, b, active, depth + 1)?;
            let ghost s2 = *self;
            proof {
                lemma_node_mono(&av, s1.next(), s2.next());
            }
            let ghost gav = *av;
            let ghost gbv = *bv;
            let out = if tag == 3 {
                let n = self.node(active, ZERO, Some((av, bv)))?;
                proof {
                    assert forall|z: Seq<nat>| #[trigger] tagged_satisfied_by(self, z) implies (z[active as int] == 1 && in_tagged_fragment(*formula) ==> (
                    nox_reduce(node_den(*obj, z), *formula) matches Some(r) ==> node_den(*n, z) == r)) by {
                        lemma_tagged_shrink(self, &s2, z);
                        lemma_tagged_shrink(&s2, &s1, z);
                    }
                }
                n
            } else if tag == 9 {
                let da = self.structural_digest(&av)?;
                let ghost t1 = *self;
                proof {
                    lemma_node_mono(&bv, s2.next(), t1.next());
                }
                let db = self.structural_digest(&bv)?;
                let ghost t2 = *self;
                let unequal = self.digest_unequal(da, db)?;
                let ghost t3 = *self;
                let value = self.mul(active, unequal)?;
                let n = self.node(ZERO, value, None)?;
                proof {
                    lemma_grows_trans(&s2, &t1, &t2);
                    lemma_grows_trans(&s2, &t2, &t3);
                    lemma_grows_trans(&s2, &t3, self);
                }
                n
            } else {
                let x = self.atom(&av, active)?;
                let y = self.atom(&bv, active)?;
                let ghost t0 = *self;
                let v = if tag == 5 {
                    let l = vec![(x, Goldilocks::one()), (y, Goldilocks::one())];
                    let ghost lv = l@;
                    let w = self.lin(l)?;
                    proof {
                        assert forall|z: Seq<nat>| #[trigger] tagged_satisfied_by(self, z) implies z[w as int] == fadd(z[x as int], z[y as int]) by {
                            lemma_two_terms(lv, z);
                            lemma_one_times(z[x as int]);
                            lemma_one_times(z[y as int]);
                        }
                    }
                    w
                } else if tag == 6 {
                    let l = vec![(x, Goldilocks::one()), (y, minus_one())];
                    let ghost lv = l@;
                    let w = self.lin(l)?;
                    proof {
                        assert forall|z: Seq<nat>| #[trigger] tagged_satisfied_by(self, z) implies z[w as int] == fsub(z[x as int], z[y as int]) by {
                            lemma_two_terms(lv, z);
                            lemma_one_times(z[x as int]);
                            lemma_one_times(z[y as int]);
                            lemma_add_neg_term(z[x as int], z[y as int], 1);
                        }
                    }
                    w
                } else {
                    self.mul(x, y)?
                };
                let ghost t1 = *self;
                let v2 = self.mul(active, v)?;
                let ghost t2 = *self;
                let n = self.node(ZERO, v2, None)?;
                proof {
                    assert forall|z: Seq<nat>| #[trigger] tagged_satisfied_by(self, z) implies (z[active as int] == 1 && in_tagged_fragment(*formula) ==> (
                    nox_reduce(node_den(*obj, z), *formula) matches Some(r) ==> node_den(*n, z) == r)) by {
                        lemma_tagged_shrink(self, &t2, z);
                        lemma_tagged_shrink(&t2, &t1, z);
                        lemma_tagged_shrink(&t1, &t0, z);
                        lemma_grows_trans(&s2, &t0, &t1);
                        lemma_tagged_shrink(&t0, &s2, z);
                        lemma_tagged_shrink(&s2, &s1, z);
                        if z[active as int] == 1 {
                            lemma_one_times(z[v as int]);
                        }
                    }
                }
                n
            };
            let ghost s3 = *self;
            let cost = self.lin(vec![(active, Goldilocks::one()), (ac, Goldilocks::one()), (bc, Goldilocks::one())])?;
            proof {
                lemma_node_mono(&out, s3.next(), self.next());
                lemma_grows_trans(&s0, &s1, &s2);
                lemma_grows_trans(&s0, &s2, &s3);
                lemma_grows_trans(&s0, &s3, self);
                lemma_grows_trans(&start, &s0, self);
                if tag != 9 {
                    lemma_tagged_reduces_shrink(self, &s3, *obj, *formula, active, *out);
                }
            }
            return Ok((out, cost, 1 + am + bm));
        }
        if tag == 8 {
            proof {
                lemma_max_cost_bound(**body);
            }
            let (v, c, m) = self.eval(obj, body, active, depth + 1)?;
            let ghost s1 = *self;
            let x = self.atom(&v, active)?;
            let inverse = self.inv(x)?;
            let product = self.mul(x, inverse)?;
            self.zero_product(active, vec![(product, Goldilocks::one()), (ONE, minus_one())])?;
            let inactive = self.lin(vec![(ONE, Goldilocks::one()), (active, minus_one())])?;
            self.zero_product(inactive, vec![(inverse, Goldilocks::one())])?;
            let out = self.node(ZERO, inverse, None)?;
            let ghost s2 = *self;
            let cost = self.lin(vec![(active, Goldilocks::new(64)), (c, Goldilocks::one())])?;
            proof {
                lemma_node_mono(&out, s2.next(), self.next());
                lemma_grows_trans(&s0, &s1, self);
                lemma_grows_trans(&start, &s0, self);
            }
            return Ok((out, cost, 64 + m));
        }
        if tag == 4 {
            let (t, arms) = match &**body {
                Noun::Pair(l, r) => (l, r),
                Noun::Atom(_) => {
                    return self.invalid(active);
                },
            };
            assert(body.size() == 1 + t.size() + arms.size());
            let (yes, no) = match &**arms {
                Noun::Pair(l, r) => (l, r),
                Noun::Atom(_) => {
                    return self.invalid(active);
                },
            };
            assert(arms.size() == 1 + yes.size() + no.size());
            proof {
                lemma_max_cost_bound(**t);
                lemma_max_cost_bound(**yes);
                lemma_max_cost_bound(**no);
            }
            let (test, tc, tm) = self.eval(obj, t, active, depth + 1)?;
            let ghost s1 = *self;
            let x = self.atom(&test, active)?;
            let inverse = self.inv(x)?;
            let s = self.mul(x, inverse)?;
            let not_s = self.lin(vec![(ONE, Goldilocks::one()), (s, minus_one())])?;
            self.zero_product(s, vec![(not_s, Goldilocks::one())])?;
            self.zero_product(x, vec![(not_s, Goldilocks::one())])?;
            self.zero_product(not_s, vec![(inverse, Goldilocks::one())])?;
            let ay = self.mul(active, not_s)?;
            let an = self.mul(active, s)?;
            let ghost s2 = *self;
            proof {
                lemma_node_mono(obj, s0.next(), s2.next());
            }
            let (y, yc, ym) = self.eval(obj, yes, ay, depth + 1)?;
            let ghost s3 = *self;
            proof {
                lemma_node_mono(obj, s2.next(), s3.next());
            }
            let (n, nc, nm) = self.eval(obj, no, an, depth + 1)?;
            let ghost s4 = *self;
            proof {
                lemma_node_mono(&y, s3.next(), s4.next());
            }
            let out = self.mux(s, &y, &n)?;
            let ghost s5 = *self;
            let cost = self.lin(vec![
                (active, Goldilocks::one()),
                (tc, Goldilocks::one()),
                (yc, Goldilocks::one()),
                (nc, Goldilocks::one()),
            ])?;
            proof {
                lemma_node_mono(&out, s5.next(), self.next());
                lemma_grows_trans(&s0, &s1, &s2);
                lemma_grows_trans(&s0, &s2, &s3);
                lemma_grows_trans(&s0, &s3, &s4);
                lemma_grows_trans(&s0, &s4, &s5);
                lemma_grows_trans(&s0, &s5, self);
                lemma_grows_trans(&start, &s0, self);
            }
            let worst = if ym >= nm { ym } else { nm };
            return Ok((out, cost, 1 + tm + worst));
        }
        if tag == 15 {
            proof {
                lemma_max_cost_bound(**body);
            }
            let (value, cost, m) = self.eval(obj, body, active, depth + 1)?;
            let ghost s1 = *self;
            let digest = self.structural_digest(&value)?;
            let mut state = [ZERO; 16];
            state[0] = digest[0];
            state[1] = digest[1];
            state[2] = digest[2];
            state[3] = digest[3];
            let ghost s2 = *self;
            let out = self.permute(state)?;
            let ghost s3 = *self;
            let output = self.digest_noun([out[0], out[1], out[2], out[3]], active)?;
            let ghost s4 = *self;
            let total = self.lin(vec![(active, Goldilocks::new(25)), (cost, Goldilocks::one())])?;
            proof {
                lemma_node_mono(&output, s4.next(), self.next());
                lemma_grows_trans(&s0, &s1, &s2);
                lemma_grows_trans(&s0, &s2, &s3);
                lemma_grows_trans(&s0, &s3, &s4);
                lemma_grows_trans(&s0, &s4, self);
                lemma_grows_trans(&start, &s0, self);
            }
            return Ok((output, total, 25 + m));
        }
        if tag == 16 || tag == 17 {
            return Err(Error::Unsupported("opcode outside experimental tagged kernel"));
        }
        self.invalid(active)
    }
}

} // verus!
