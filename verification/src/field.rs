//! The Goldilocks prime field F_p, p = 2^64 − 2^32 + 1.
//!
//! Elements are kept canonical (in `0..p`); the view of an element is its
//! canonical integer. Every operation is specified as the corresponding
//! integer operation reduced modulo p.
use vstd::arithmetic::div_mod::*;
use vstd::arithmetic::power::*;
use vstd::prelude::*;

verus! {

/// The Goldilocks modulus.
pub const P: u64 = 0xffff_ffff_0000_0001u64;

/// The modulus as a mathematical integer.
pub open spec fn modulus() -> nat {
    18446744069414584321nat
}

/// An element of the Goldilocks field.
#[derive(Clone, Copy, Debug, PartialEq, Eq, Structural)]
pub struct Goldilocks {
    v: u64,
}

impl Goldilocks {
    #[verifier::type_invariant]
    spec fn canonical(self) -> bool {
        self.v < P
    }
}

impl View for Goldilocks {
    type V = nat;

    closed spec fn view(&self) -> nat {
        self.v as nat
    }
}

/// `a + b` in F_p, on canonical integers.
pub open spec fn fadd(a: nat, b: nat) -> nat {
    (a + b) % modulus()
}

/// `a − b` in F_p, on canonical integers.
pub open spec fn fsub(a: nat, b: nat) -> nat {
    (a + modulus() - (b % modulus())) as nat % modulus()
}

/// `a · b` in F_p, on canonical integers.
pub open spec fn fmul(a: nat, b: nat) -> nat {
    (a * b) % modulus()
}

/// `−a` in F_p.
pub open spec fn fneg(a: nat) -> nat {
    fsub(0, a)
}

/// `a^(p−2)` in F_p: the inverse of every non-zero element, and 0 for 0.
pub open spec fn finv(a: nat) -> nat {
    (pow(a as int, (modulus() - 2) as nat) % (modulus() as int)) as nat
}

/// The canonical image of an integer in F_p.
pub open spec fn fred(x: int) -> nat {
    (x % (modulus() as int)) as nat
}

/// Elements with the same canonical integer are the same element.
pub proof fn lemma_view_injective(a: Goldilocks, b: Goldilocks)
    ensures
        a@ == b@ <==> a == b,
{
}

impl Goldilocks {
    /// The zero element.
    pub fn zero() -> (r: Goldilocks)
        ensures
            r@ == 0,
    {
        Goldilocks { v: 0 }
    }

    /// The one element.
    pub fn one() -> (r: Goldilocks)
        ensures
            r@ == 1,
    {
        Goldilocks { v: 1 }
    }

    /// The element `x mod p`.
    pub fn new(x: u64) -> (r: Goldilocks)
        ensures
            r@ == x as nat % modulus(),
    {
        Goldilocks { v: x % P }
    }

    /// The canonical integer of this element, in `0..p`.
    pub fn as_u64(self) -> (r: u64)
        ensures
            r as nat == self@,
            r < P,
    {
        proof {
            use_type_invariant(&self);
        }
        self.v
    }

    /// Whether this element is zero.
    pub fn is_zero(self) -> (r: bool)
        ensures
            r == (self@ == 0),
    {
        self.v == 0
    }

    /// Whether two elements are equal.
    pub fn equals(self, b: Goldilocks) -> (r: bool)
        ensures
            r == (self@ == b@),
    {
        self.v == b.v
    }

    /// The canonical representative (elements are always canonical).
    pub fn canonicalize(self) -> (r: Goldilocks)
        ensures
            r == self,
    {
        self
    }

    /// Field addition.
    pub fn add(self, b: Goldilocks) -> (r: Goldilocks)
        ensures
            r@ == fadd(self@, b@),
    {
        proof {
            use_type_invariant(&self);
            use_type_invariant(&b);
        }
        let s: u128 = self.v as u128 + b.v as u128;
        let m: u128 = s % (P as u128);
        Goldilocks { v: m as u64 }
    }

    /// Field subtraction.
    pub fn sub(self, b: Goldilocks) -> (r: Goldilocks)
        ensures
            r@ == fsub(self@, b@),
    {
        proof {
            use_type_invariant(&self);
            use_type_invariant(&b);
            lemma_small_mod(b@, modulus());
        }
        let s: u128 = self.v as u128 + P as u128 - b.v as u128;
        let m: u128 = s % (P as u128);
        Goldilocks { v: m as u64 }
    }

    /// Field negation.
    pub fn neg(self) -> (r: Goldilocks)
        ensures
            r@ == fneg(self@),
    {
        Goldilocks::zero().sub(self)
    }

    /// Field multiplication.
    pub fn mul(self, b: Goldilocks) -> (r: Goldilocks)
        ensures
            r@ == fmul(self@, b@),
    {
        proof {
            use_type_invariant(&self);
            use_type_invariant(&b);
            assert(self.v as u128 * b.v as u128 <= u64::MAX as u128 * u64::MAX as u128) by (nonlinear_arith)
                requires self.v <= u64::MAX, b.v <= u64::MAX;
        }
        let s: u128 = self.v as u128 * b.v as u128;
        let m: u128 = s % (P as u128);
        Goldilocks { v: m as u64 }
    }

    /// The square of this element.
    pub fn square(self) -> (r: Goldilocks)
        ensures
            r@ == fmul(self@, self@),
    {
        self.mul(self)
    }

    /// `self^e` in F_p, by square-and-multiply.
    pub fn pow(self, e: u64) -> (r: Goldilocks)
        ensures
            r@ == fred(pow(self@ as int, e as nat)),
    {
        let mut acc = Goldilocks::one();
        let mut base = self;
        let mut k: u64 = e;
        proof {
            lemma_pow0(self@ as int);
            lemma_pow1(self@ as int);
            use_type_invariant(&base);
            lemma_small_mod(1, modulus());
            lemma_small_mod(self@, modulus());
        }
        while k > 0
            invariant
                fred(acc@ * pow(base@ as int, k as nat)) == fred(pow(self@ as int, e as nat)),
            decreases k,
        {
            let ghost a0 = acc@;
            let ghost b0 = base@;
            let ghost k0 = k;
            if k % 2 == 1 {
                acc = acc.mul(base);
                proof {
                    lemma_pow_step_odd(a0, b0, k0 as nat);
                }
            } else {
                proof {
                    lemma_pow_step_even(a0, b0, k0 as nat);
                }
            }
            base = base.square();
            k = k / 2;
        }
        proof {
            lemma_pow0(base@ as int);
            use_type_invariant(&acc);
            lemma_small_mod(acc@, modulus());
        }
        acc
    }

    /// The multiplicative inverse `self^(p−2)` (zero maps to zero).
    pub fn inv(self) -> (r: Goldilocks)
        ensures
            r@ == finv(self@),
    {
        self.pow(P - 2)
    }
}

proof fn lemma_pow_step_odd(a: nat, b: nat, k: nat)
    requires
        k % 2 == 1,
    ensures
        fred(fmul(a, b) * pow(fmul(b, b) as int, k / 2)) == fred(a * pow(b as int, k)),
{
    let m = modulus() as int;
    let j = k / 2;
    let x = pow((b * b) as int, j);
    let y = pow(((b * b) as int) % m, j);
    lemma_square_is_pow2(b as int);
    lemma_pow_multiplies(b as int, 2, j);
    assert(x == pow(b as int, 2 * j));
    assert(pow(b as int, k) == b * pow(b as int, 2 * j)) by {
        reveal(pow);
        assert(k == 2 * j + 1);
    }
    lemma_pow_mod_noop((b * b) as int, j, m);
    assert(y % m == x % m);
    lemma_mul_mod_noop_left((a * b) as int, y, m);
    lemma_mul_mod_noop_right((a * b) as int, y, m);
    lemma_mul_mod_noop_right((a * b) as int, x, m);
    assert(((a * b) as int) * (y % m) == ((a * b) as int) * (x % m));
    assert(((a * b) as int) * x == (a as int) * pow(b as int, k)) by (nonlinear_arith)
        requires
            x == pow(b as int, 2 * j),
            pow(b as int, k) == b * pow(b as int, 2 * j),
    ;
}

proof fn lemma_pow_step_even(a: nat, b: nat, k: nat)
    requires
        k % 2 == 0,
    ensures
        fred(a * pow(fmul(b, b) as int, k / 2)) == fred(a * pow(b as int, k)),
{
    let m = modulus() as int;
    let j = k / 2;
    let x = pow((b * b) as int, j);
    let y = pow(((b * b) as int) % m, j);
    lemma_square_is_pow2(b as int);
    lemma_pow_multiplies(b as int, 2, j);
    assert(x == pow(b as int, k));
    lemma_pow_mod_noop((b * b) as int, j, m);
    lemma_mul_mod_noop_right(a as int, y, m);
    lemma_mul_mod_noop_right(a as int, x, m);
    assert((a as int) * (y % m) == (a as int) * (x % m));
}

} // verus!
