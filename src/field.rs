//! Arithmetic in the prime field of order `MODULUS`, the Mersenne prime 2^31 - 1.

use vstd::prelude::*;

verus! {

/// The field's prime order.
pub const MODULUS: u64 = 2147483647;

/// Number of bits in the binary representation of `MODULUS`.
pub const MODULUS_BITS: u64 = 31;

/// A field element, held in canonical form (`val < MODULUS`).
#[derive(Clone, Copy, Debug, PartialEq, Eq, Structural)]
pub struct Fp {
    pub val: u64,
}

impl Fp {
    /// The element is in canonical form.
    pub open spec fn wf(self) -> bool {
        self.val < MODULUS
    }
}

/// Canonical element of residue `v mod MODULUS`.
pub open spec fn fe(v: int) -> Fp {
    Fp { val: (v % (MODULUS as int)) as u64 }
}

pub open spec fn fadd(a: Fp, b: Fp) -> Fp {
    fe(a.val + b.val)
}

pub open spec fn fsub(a: Fp, b: Fp) -> Fp {
    fe(a.val + MODULUS - b.val)
}

pub open spec fn fmul(a: Fp, b: Fp) -> Fp {
    fe(a.val * b.val)
}

/// `a^e`, by repeated squaring.
pub open spec fn fpow(a: Fp, e: nat) -> Fp
    decreases e,
{
    if e == 0 {
        fe(1)
    } else {
        let h = fpow(a, e / 2);
        if e % 2 == 1 {
            fmul(fmul(h, h), a)
        } else {
            fmul(h, h)
        }
    }
}

/// Multiplicative inverse by Fermat's little theorem (zero maps to zero).
pub open spec fn finv(a: Fp) -> Fp {
    fpow(a, (MODULUS - 2) as nat)
}

pub proof fn lemma_fe_wf(v: int)
    ensures
        fe(v).wf(),
{
}

/// A canonical element is its own residue.
pub proof fn lemma_fe_canonical(x: Fp)
    requires
        x.wf(),
    ensures
        fe(x.val as int) == x,
        fadd(x, fe(0)) == x,
        fadd(fe(0), x) == x,
        fmul(fe(1), x) == x,
        fmul(fe(0), x) == fe(0),
{
    assert(fe(1).val == 1);
    assert(fe(1).val * x.val == x.val);
}

pub proof fn lemma_fpow_wf(a: Fp, e: nat)
    ensures
        fpow(a, e).wf(),
    decreases e,
{
    if e > 0 {
        lemma_fpow_wf(a, e / 2);
    }
}

impl Fp {
    pub fn zero() -> (r: Fp)
        ensures
            r == fe(0),
            r.wf(),
    {
        Fp { val: 0 }
    }

    pub fn one() -> (r: Fp)
        ensures
            r == fe(1),
            r.wf(),
    {
        Fp { val: 1 }
    }

    /// The element `v mod MODULUS`.
    pub fn from_u64(v: u64) -> (r: Fp)
        ensures
            r == fe(v as int),
            r.wf(),
    {
        Fp { val: v % MODULUS }
    }

    pub fn add(self, o: Fp) -> (r: Fp)
        requires
            self.wf(),
            o.wf(),
        ensures
            r == fadd(self, o),
            r.wf(),
    {
        Fp { val: (self.val + o.val) % MODULUS }
    }

    pub fn sub(self, o: Fp) -> (r: Fp)
        requires
            self.wf(),
            o.wf(),
        ensures
            r == fsub(self, o),
            r.wf(),
    {
        Fp { val: (self.val + (MODULUS - o.val)) % MODULUS }
    }

    pub fn mul(self, o: Fp) -> (r: Fp)
        requires
            self.wf(),
            o.wf(),
        ensures
            r == fmul(self, o),
            r.wf(),
    {
        let a = self.val;
        let b = o.val;
        assert(a * b < 0x4000_0000_0000_0000) by (nonlinear_arith)
            requires
                a < MODULUS,
                b < MODULUS,
        ;
        Fp { val: (a * b) % MODULUS }
    }

    /// `self^e`.
    pub fn pow(self, e: u64) -> (r: Fp)
        requires
            self.wf(),
        ensures
            r == fpow(self, e as nat),
            r.wf(),
        decreases e,
    {
        if e == 0 {
            Fp::one()
        } else {
            let h = self.pow(e / 2);
            let h2 = h.mul(h);
            if e % 2 == 1 {
                h2.mul(self)
            } else {
                h2
            }
        }
    }

    /// Multiplicative inverse (zero for zero).
    pub fn inverse(self) -> (r: Fp)
        requires
            self.wf(),
        ensures
            r == finv(self),
            r.wf(),
    {
        self.pow(MODULUS - 2)
    }
}

} // verus!
