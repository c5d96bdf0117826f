//! Fractions between zero and one, used for thresholds and mutation rates.

use vstd::prelude::*;

verus! {

/// A fraction `numer / denom` that lies between zero and one inclusive.
#[derive(Clone, Copy, Debug)]
pub struct Ratio {
    num: u64,
    den: u64,
}

impl Ratio {
    /// The numerator.
    pub closed spec fn numer(self) -> nat {
        self.num as nat
    }

    /// The denominator.
    pub closed spec fn denom(self) -> nat {
        self.den as nat
    }

    /// The fraction `numer / denom`.
    pub closed spec fn of(numer: nat, denom: nat) -> Ratio {
        Ratio { num: numer as u64, den: denom as u64 }
    }

    /// The fraction is defined and does not exceed one.
    #[verifier::type_invariant]
    pub open spec fn wf(self) -> bool {
        0 < self.denom() && self.numer() <= self.denom()
    }

    /// `self <= other` as fractions.
    pub open spec fn le(self, other: Ratio) -> bool {
        self.numer() * other.denom() <= other.numer() * self.denom()
    }

    /// The integer part of `n * self`.
    pub open spec fn scale(self, n: nat) -> nat {
        (n * self.numer()) / self.denom()
    }

    /// Builds `num / den`, or nothing when that is not a fraction between zero and one.
    pub fn new(num: u64, den: u64) -> (r: Option<Ratio>)
        ensures
            (r is Some) == (0 < den && num <= den),
            r is Some ==> r->0 == Ratio::of(num as nat, den as nat) && r->0.wf(),
            r is Some ==> r->0.numer() == num && r->0.denom() == den,
    {
        if 0 < den && num <= den {
            Some(Ratio { num, den })
        } else {
            None
        }
    }

    /// The fraction zero.
    pub fn zero() -> (r: Ratio)
        ensures
            r == Ratio::of(0, 1),
            r.numer() == 0,
            r.denom() == 1,
            r.wf(),
    {
        Ratio { num: 0, den: 1 }
    }

    /// The fraction one half.
    pub fn half() -> (r: Ratio)
        ensures
            r == Ratio::of(1, 2),
            r.numer() == 1,
            r.denom() == 2,
            r.wf(),
    {
        Ratio { num: 1, den: 2 }
    }

    /// The fraction one.
    pub fn one() -> (r: Ratio)
        ensures
            r == Ratio::of(1, 1),
            r.numer() == 1,
            r.denom() == 1,
            r.wf(),
    {
        Ratio { num: 1, den: 1 }
    }

    /// The numerator.
    pub fn numerator(&self) -> (n: u64)
        ensures
            n == self.numer(),
            self.wf(),
    {
        proof {
            use_type_invariant(self);
        }
        self.num
    }

    /// The denominator.
    pub fn denominator(&self) -> (d: u64)
        ensures
            d == self.denom(),
            self.wf(),
    {
        proof {
            use_type_invariant(self);
        }
        self.den
    }

    /// Whether `self <= other` as fractions.
    pub fn at_most(&self, other: &Ratio) -> (b: bool)
        ensures
            b == self.le(*other),
    {
        proof {
            lemma_product_fits(self.num as nat, other.den as nat);
            lemma_product_fits(other.num as nat, self.den as nat);
        }
        let left: u128 = self.num as u128 * other.den as u128;
        let right: u128 = other.num as u128 * self.den as u128;
        left <= right
    }

    /// The integer part of `n * self`.
    pub fn scaled(&self, n: usize) -> (k: usize)
        ensures
            k == self.scale(n as nat),
            k <= n,
    {
        proof {
            use_type_invariant(self);
            lemma_scale_bounded(*self, n as nat);
            lemma_product_fits(n as nat, self.num as nat);
        }
        let product: u128 = n as u128 * self.num as u128;
        let quotient: u128 = product / self.den as u128;
        quotient as usize
    }
}

/// A fraction is known by its numerator and its denominator.
pub proof fn lemma_ratio_of(numer: nat, denom: nat)
    requires
        numer <= u64::MAX,
        denom <= u64::MAX,
    ensures
        Ratio::of(numer, denom).numer() == numer,
        Ratio::of(numer, denom).denom() == denom,
{
}

/// The product of two 64-bit numbers fits in 128 bits.
proof fn lemma_product_fits(a: nat, b: nat)
    requires
        a <= u64::MAX,
        b <= u64::MAX,
    ensures
        a * b <= u128::MAX,
{
    assert(a * b <= 0xFFFF_FFFF_FFFF_FFFF * 0xFFFF_FFFF_FFFF_FFFF) by (nonlinear_arith)
        requires
            a <= 0xFFFF_FFFF_FFFF_FFFF,
            b <= 0xFFFF_FFFF_FFFF_FFFF,
    ;
}

/// Scaling by a fraction never yields more than what was scaled.
pub proof fn lemma_scale_bounded(r: Ratio, n: nat)
    requires
        r.wf(),
    ensures
        r.scale(n) <= n,
{
    let a = r.numer();
    let b = r.denom();
    assert(n * a <= n * b) by (nonlinear_arith)
        requires
            a <= b,
    ;
    assert((n * a) / b <= n) by (nonlinear_arith)
        requires
            n * a <= n * b,
            0 < b,
    ;
}

/// Scaling grows with the fraction: a larger fraction of the same count is no smaller.
pub proof fn lemma_scale_monotone(lo: Ratio, hi: Ratio, n: nat)
    requires
        lo.wf(),
        hi.wf(),
        lo.le(hi),
    ensures
        lo.scale(n) <= hi.scale(n),
{
    let a = lo.numer();
    let b = lo.denom();
    let c = hi.numer();
    let d = hi.denom();
    let q = (n * a) / b;
    assert(q * b <= n * a) by (nonlinear_arith)
        requires
            q == (n * a) / b,
            0 < b,
    ;
    assert(q * d * b <= n * c * b) by (nonlinear_arith)
        requires
            q * b <= n * a,
            a * d <= c * b,
    ;
    assert(q * d <= n * c) by (nonlinear_arith)
        requires
            q * d * b <= n * c * b,
            0 < b,
    ;
    assert(q <= (n * c) / d) by (nonlinear_arith)
        requires
            q * d <= n * c,
            0 < d,
    ;
}

} // verus!
