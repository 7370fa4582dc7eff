//! Elements of the Pallas base field, held as canonical little-endian limbs.
//! The arithmetic itself is done by arkworks' `ark_pallas::Fq`.

use ark_ff::{BigInt, PrimeField};
use ark_pallas::Fq;
use vstd::arithmetic::div_mod::{
    lemma_add_mod_noop, lemma_mod_equivalence, lemma_mod_twice, lemma_mul_mod_noop_general,
    lemma_sub_mod_noop, lemma_small_mod,
};
use vstd::prelude::*;

verus! {

/// The field's prime modulus,
/// 2^254 + 0x224698fc094cf91b992d30ed00000001.
pub open spec fn modulus() -> int {
    limbs_value(0x992d_30ed_0000_0001, 0x2246_98fc_094c_f91b, 0, 0x4000_0000_0000_0000)
}

pub open spec fn limbs_value(l0: u64, l1: u64, l2: u64, l3: u64) -> int {
    l0 + 0x1_0000_0000_0000_0000 * (l1 + 0x1_0000_0000_0000_0000 * (l2 + 0x1_0000_0000_0000_0000 * l3))
}

pub open spec fn fadd(a: int, b: int) -> int {
    (a + b) % modulus()
}

pub open spec fn fsub(a: int, b: int) -> int {
    (a - b) % modulus()
}

pub open spec fn fmul(a: int, b: int) -> int {
    (a * b) % modulus()
}

/// `a` has a multiplicative inverse; in a prime field, every non-zero element does.
pub open spec fn invertible(a: int) -> bool {
    exists|y: int| 0 <= y < modulus() && #[trigger] ((y * a) % modulus()) == 1
}

pub open spec fn finv(a: int) -> int {
    choose|y: int| 0 <= y < modulus() && #[trigger] ((y * a) % modulus()) == 1
}

pub open spec fn fdiv(a: int, b: int) -> int {
    fmul(a, finv(b))
}

/// `a` and `b` stand for the same field element.
pub open spec fn cong(a: int, b: int) -> bool {
    a % modulus() == b % modulus()
}

/// A field element: the integer `l0 + l1·2^64 + l2·2^128 + l3·2^192`, always
/// below the modulus.
#[derive(Clone, Copy, Debug, PartialEq, Eq, Structural)]
pub struct Fe {
    l0: u64,
    l1: u64,
    l2: u64,
    l3: u64,
}

impl Fe {
    #[verifier::type_invariant]
    spec fn canonical(self) -> bool {
        limbs_value(self.l0, self.l1, self.l2, self.l3) < modulus()
    }

    /// The integer in `[0, modulus())` that this element stands for.
    pub closed spec fn val(self) -> int {
        limbs_value(self.l0, self.l1, self.l2, self.l3)
    }

    /// States that the integer of an element is below the modulus; it has
    /// no effect at run time.
    pub fn lemma_canonical(&self)
        ensures
            0 <= self.val() < modulus(),
    {
        proof {
            use_type_invariant(self);
        }
    }

    /// The element `x` (every `u64` is below the modulus).
    pub fn from_u64(x: u64) -> (r: Fe)
        ensures
            r.val() == x as int,
    {
        Fe { l0: x, l1: 0, l2: 0, l3: 0 }
    }

    pub fn zero() -> (r: Fe)
        ensures
            r.val() == 0,
    {
        Fe::from_u64(0)
    }

    pub fn one() -> (r: Fe)
        ensures
            r.val() == 1,
    {
        Fe::from_u64(1)
    }

    /// The element 1 for `true`, 0 for `false`.
    pub fn from_bool(b: bool) -> (r: Fe)
        ensures
            r.val() == (if b { 1int } else { 0int }),
    {
        if b {
            Fe::one()
        } else {
            Fe::zero()
        }
    }

    /// The canonical little-endian limbs.
    pub fn limbs(&self) -> (r: [u64; 4])
        ensures
            limbs_value(r[0], r[1], r[2], r[3]) == self.val(),
            r[0] == self.val() % 0x1_0000_0000_0000_0000,
    {
        proof {
            let b: int = 0x1_0000_0000_0000_0000;
            let rest = self.l1 + b * (self.l2 + b * self.l3);
            vstd::arithmetic::div_mod::lemma_mod_multiples_vanish(rest, self.l0 as int, b);
            lemma_small_mod(self.l0 as nat, b as nat);
        }
        [self.l0, self.l1, self.l2, self.l3]
    }

    /// The element whose integer is given by `limbs` (little-endian), or `None`
    /// when that integer is not below the modulus.
    pub fn from_limbs(limbs: [u64; 4]) -> (r: Option<Fe>)
        ensures
            limbs_value(limbs[0], limbs[1], limbs[2], limbs[3]) < modulus() <==> r is Some,
            r is Some ==> r->0.val() == limbs_value(limbs[0], limbs[1], limbs[2], limbs[3]),
    {
        let l0 = limbs[0];
        let l1 = limbs[1];
        let l2 = limbs[2];
        let l3 = limbs[3];
        // the modulus' limbs, most significant first
        let m3: u64 = 0x4000_0000_0000_0000;
        let m2: u64 = 0;
        let m1: u64 = 0x2246_98fc_094c_f91b;
        let m0: u64 = 0x992d_30ed_0000_0001;
        assert(modulus() == limbs_value(m0, m1, m2, m3));
        let below = l3 < m3 || (l3 == m3 && (l2 < m2 || (l2 == m2 && (l1 < m1 || (l1 == m1
            && l0 < m0)))));
        proof {
            lemma_limbs_lt(l0, l1, l2, l3, m0, m1, m2, m3);
        }
        if below {
            Some(Fe { l0, l1, l2, l3 })
        } else {
            None
        }
    }

    pub fn is_zero(&self) -> (r: bool)
        ensures
            r == (self.val() == 0),
    {
        self.l0 == 0 && self.l1 == 0 && self.l2 == 0 && self.l3 == 0
    }

    /// Relies on `Add` of `ark_pallas::Fq`: addition modulo the prime.
    #[verifier::external_body]
    pub fn add(&self, o: &Fe) -> (r: Fe)
        ensures
            r.val() == fadd(self.val(), o.val()),
    {
        let a = Fq::from_bigint(BigInt::new([self.l0, self.l1, self.l2, self.l3])).unwrap();
        let b = Fq::from_bigint(BigInt::new([o.l0, o.l1, o.l2, o.l3])).unwrap();
        let c = (a + b).into_bigint().0;
        Fe { l0: c[0], l1: c[1], l2: c[2], l3: c[3] }
    }

    /// Relies on `Sub` of `ark_pallas::Fq`: subtraction modulo the prime.
    #[verifier::external_body]
    pub fn sub(&self, o: &Fe) -> (r: Fe)
        ensures
            r.val() == fsub(self.val(), o.val()),
    {
        let a = Fq::from_bigint(BigInt::new([self.l0, self.l1, self.l2, self.l3])).unwrap();
        let b = Fq::from_bigint(BigInt::new([o.l0, o.l1, o.l2, o.l3])).unwrap();
        let c = (a - b).into_bigint().0;
        Fe { l0: c[0], l1: c[1], l2: c[2], l3: c[3] }
    }

    /// Relies on `Mul` of `ark_pallas::Fq`: multiplication modulo the prime.
    #[verifier::external_body]
    pub fn mul(&self, o: &Fe) -> (r: Fe)
        ensures
            r.val() == fmul(self.val(), o.val()),
    {
        let a = Fq::from_bigint(BigInt::new([self.l0, self.l1, self.l2, self.l3])).unwrap();
        let b = Fq::from_bigint(BigInt::new([o.l0, o.l1, o.l2, o.l3])).unwrap();
        let c = (a * b).into_bigint().0;
        Fe { l0: c[0], l1: c[1], l2: c[2], l3: c[3] }
    }

    /// Relies on `Div` of `ark_pallas::Fq`: `self * o.inverse().unwrap()`,
    /// which panics on a zero divisor; the inverse in a prime field is unique.
    #[verifier::external_body]
    pub fn div(&self, o: &Fe) -> (r: Fe)
        requires
            o.val() != 0,
        ensures
            r.val() == fdiv(self.val(), o.val()),
    {
        let a = Fq::from_bigint(BigInt::new([self.l0, self.l1, self.l2, self.l3])).unwrap();
        let b = Fq::from_bigint(BigInt::new([o.l0, o.l1, o.l2, o.l3])).unwrap();
        let c = (a / b).into_bigint().0;
        Fe { l0: c[0], l1: c[1], l2: c[2], l3: c[3] }
    }

    /// Whether the element has a multiplicative inverse; in a prime field,
    /// whether it is non-zero.
    pub fn is_invertible(&self) -> (r: bool)
        ensures
            r == invertible(self.val()),
    {
        let ghost x = self.val();
        if self.is_zero() {
            proof {
                if invertible(x) {
                    lemma_invertible_nonzero(x);
                    lemma_small(0);
                }
            }
            return false;
        }
        let y = Fe::one().div(self);
        let p = y.mul(self);
        let r = p.sub(&Fe::one()).is_zero();
        proof {
            use_type_invariant(&y);
            use_type_invariant(&p);
            lemma_cong_zero(p.val(), 1);
            lemma_small(p.val());
            lemma_small(1);
            if invertible(x) {
                let z = finv(x);
                assert((z * x) % modulus() == 1);
                assert(1 * z == z);
                lemma_cong_mod(z);
                lemma_cong_ops(y.val(), z, x, x);
            }
            if r {
                assert((y.val() * x) % modulus() == 1);
            }
        }
        r
    }

    pub fn double(&self) -> (r: Fe)
        ensures
            r.val() == fadd(self.val(), self.val()),
    {
        self.add(self)
    }

    pub fn square(&self) -> (r: Fe)
        ensures
            r.val() == fmul(self.val(), self.val()),
    {
        self.mul(self)
    }

    pub fn neg(&self) -> (r: Fe)
        ensures
            r.val() == fsub(0, self.val()),
    {
        Fe::zero().sub(self)
    }
}

proof fn lemma_limbs_lt(l0: u64, l1: u64, l2: u64, l3: u64, m0: u64, m1: u64, m2: u64, m3: u64)
    ensures
        (l3 < m3 || (l3 == m3 && (l2 < m2 || (l2 == m2 && (l1 < m1 || (l1 == m1 && l0 < m0))))))
            <==> limbs_value(l0, l1, l2, l3) < limbs_value(m0, m1, m2, m3),
{
}

/// `cong` is preserved by the ring operations.
pub proof fn lemma_cong_ops(a: int, a2: int, b: int, b2: int)
    requires
        cong(a, a2),
        cong(b, b2),
    ensures
        cong(a + b, a2 + b2),
        cong(a - b, a2 - b2),
        cong(a * b, a2 * b2),
{
    let m = modulus();
    lemma_add_mod_noop(a, b, m);
    lemma_add_mod_noop(a2, b2, m);
    lemma_sub_mod_noop(a, b, m);
    lemma_sub_mod_noop(a2, b2, m);
    lemma_mul_mod_noop_general(a, b, m);
    lemma_mul_mod_noop_general(a2, b2, m);
}

/// A reduced value stands for the integer it was reduced from.
pub proof fn lemma_cong_mod(a: int)
    ensures
        cong(a % modulus(), a),
        0 <= a % modulus() < modulus(),
{
    lemma_mod_twice(a, modulus());
}

/// Zero in the field: `cong(a, b)` is `a - b` vanishing.
pub proof fn lemma_cong_zero(a: int, b: int)
    ensures
        cong(a, b) <==> (a - b) % modulus() == 0,
{
    lemma_mod_equivalence(a, b, modulus());
}

/// An element below the modulus is its own reduction.
pub proof fn lemma_small(a: int)
    requires
        0 <= a < modulus(),
    ensures
        a % modulus() == a,
{
    lemma_small_mod(a as nat, modulus() as nat);
}

/// Zero has no inverse.
pub proof fn lemma_invertible_nonzero(a: int)
    requires
        invertible(a),
    ensures
        a % modulus() != 0,
{
    let y = choose|y: int| 0 <= y < modulus() && #[trigger] ((y * a) % modulus()) == 1;
    lemma_cong_mod(a);
    if a % modulus() == 0 {
        lemma_cong_ops(y, y, a, 0);
        assert(y * 0 == 0);
    }
}

/// An invertible element times a non-zero one is non-zero.
pub proof fn lemma_mul_nonzero(a: int, b: int)
    requires
        invertible(a),
        b % modulus() != 0,
    ensures
        (a * b) % modulus() != 0,
{
    let y = finv(a);
    assert((y * a) % modulus() == 1);
    if (a * b) % modulus() == 0 {
        lemma_cong_mod(a * b);
        lemma_cong_ops(y, y, a * b, 0);
        assert(y * (a * b) == (y * a) * b) by (nonlinear_arith);
        lemma_cong_mod(y * a);
        lemma_cong_ops(y * a, 1, b, b);
        assert(y * 0 == 0);
        assert(0int % modulus() == 0);
    }
}

/// An element that stands for an invertible one is invertible.
pub proof fn lemma_invertible_cong(a: int, b: int)
    requires
        invertible(a),
        cong(a, b),
    ensures
        invertible(b),
{
    let y = finv(a);
    lemma_cong_ops(y, y, a, b);
    assert((y * b) % modulus() == 1);
}

/// The negation of an invertible element is invertible.
pub proof fn lemma_invertible_neg(a: int)
    requires
        invertible(a),
    ensures
        invertible(0 - a),
{
    let y = finv(a);
    let z = (0 - y) % modulus();
    lemma_cong_mod(0 - y);
    lemma_cong_ops(z, 0 - y, 0 - a, 0 - a);
    assert((0 - y) * (0 - a) == y * a) by (nonlinear_arith);
    assert((z * (0 - a)) % modulus() == 1);
}

/// An invertible factor cancels.
pub proof fn lemma_cancel(a: int, b: int, d: int)
    requires
        invertible(d),
        cong(a * d, b * d),
    ensures
        cong(a, b),
{
    let y = finv(d);
    assert((y * d) % modulus() == 1);
    lemma_cong_ops(a * d, b * d, y, y);
    assert(a * d * y == a * (y * d)) by (nonlinear_arith);
    assert(b * d * y == b * (y * d)) by (nonlinear_arith);
    lemma_cong_mod(y * d);
    lemma_cong_ops(a, a, y * d, 1);
    lemma_cong_ops(b, b, y * d, 1);
}

/// Two is invertible: the modulus is odd.
pub proof fn lemma_two_invertible()
    ensures
        invertible(2),
{
    let y = (modulus() + 1) / 2;
    assert(y * 2 == modulus() + 1);
    vstd::arithmetic::div_mod::lemma_mod_add_multiples_vanish(1, modulus());
    lemma_small(1);
    assert((y * 2) % modulus() == 1);
}

/// Dividing by an invertible element and multiplying back.
pub proof fn lemma_fdiv(a: int, b: int)
    requires
        invertible(b),
    ensures
        cong(fdiv(a, b) * b, a),
{
    let y = finv(b);
    let m = modulus();
    assert((y * b) % m == 1);
    lemma_cong_mod(a * y);
    lemma_cong_ops(fdiv(a, b), a * y, b, b);
    assert(a * y * b == a * (y * b)) by (nonlinear_arith);
    lemma_cong_mod(y * b);
    lemma_cong_ops(a, a, y * b, 1);
}

} // verus!
