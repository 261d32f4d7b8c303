//! Numbers of the form `mantissa * 2^exponent`, for bounding products that
//! are too long to be worth computing in full.
//!
//! A product is followed by two such numbers, one that is rounded down at
//! every step and one that is rounded up. Where the bounds of two products
//! do not overlap, the products are told apart without being computed.

use vstd::arithmetic::div_mod::lemma_fundamental_div_mod_converse;
use vstd::arithmetic::power2::{
    lemma2_to64, lemma2_to64_rest, lemma_pow2_adds, lemma_pow2_pos, lemma_pow2_strictly_increases,
    lemma_pow2_unfold, pow2,
};
use vstd::prelude::*;

verus! {

/// The exponent up to which a number can still be multiplied.
pub const EXPONENT_LIMIT: u64 = 0xFFFF_FFFF_FFFF_0000;

/// The number `mantissa * 2^exponent`.
#[derive(Clone, Copy, Debug)]
pub struct Scaled {
    pub mantissa: u64,
    pub exponent: u64,
}

/// How often `p` has to be halved until it is below `2^63`.
pub open spec fn halvings(p: nat) -> nat
    decreases p,
{
    if p < 0x8000_0000_0000_0000 {
        0
    } else {
        1 + halvings(p / 2)
    }
}

/// `p` divided by the power of two that brings it below `2^63`, rounded
/// down.
pub open spec fn rounded_down(p: nat) -> nat {
    p / pow2(halvings(p))
}

/// `p` divided by the power of two that brings it below `2^63`, rounded up.
pub open spec fn rounded_up(p: nat) -> nat {
    if p % pow2(halvings(p)) == 0 {
        rounded_down(p)
    } else {
        rounded_down(p) + 1
    }
}

/// Halves `p` until it is below `2^63`. Returns what is left, the number of
/// halvings, and whether nothing was cut off on the way.
fn reduce(p: u128) -> (r: (u64, u64, bool))
    ensures
        r.0 < 0x8000_0000_0000_0000,
        r.1 <= 65,
        r.1 == halvings(p as nat),
        r.0 == rounded_down(p as nat),
        r.2 == (p as nat % pow2(r.1 as nat) == 0),
        r.0 * pow2(r.1 as nat) <= p < (r.0 + 1) * pow2(r.1 as nat),
        r.2 ==> r.0 * pow2(r.1 as nat) == p,
{
    let mut q: u128 = p;
    let mut s: u64 = 0;
    let mut exact = true;
    proof {
        lemma2_to64();
    }
    while q >= 0x8000_0000_0000_0000u128
        invariant
            s <= 65,
            s + halvings(q as nat) == halvings(p as nat),
            q * pow2(s as nat) <= p < (q + 1) * pow2(s as nat),
            exact <==> q * pow2(s as nat) == p,
        decreases q,
    {
        let half = q / 2;
        proof {
            let w = pow2(s as nat) as int;
            let qi = q as int;
            let hi = half as int;
            lemma_pow2_pos(s as nat);
            lemma_pow2_unfold((s + 1) as nat);
            if s >= 65 {
                lemma2_to64_rest();
                lemma_pow2_unfold(65);
                if s > 65 {
                    lemma_pow2_strictly_increases(65, s as nat);
                }
                assert(qi * w >= 0x1_0000_0000_0000_0000_0000_0000_0000_0000) by (nonlinear_arith)
                    requires
                        qi >= 0x8000_0000_0000_0000,
                        w >= 0x2_0000_0000_0000_0000,
                ;
            }
            assert(hi * (2 * w) <= qi * w && (qi + 1) * w <= (hi + 1) * (2 * w))
                by (nonlinear_arith)
                requires
                    2 * hi <= qi <= 2 * hi + 1,
                    w > 0,
            ;
            assert(qi == 2 * hi ==> hi * (2 * w) == qi * w) by (nonlinear_arith);
            assert(qi == 2 * hi + 1 ==> hi * (2 * w) < qi * w) by (nonlinear_arith)
                requires
                    w > 0,
            ;
        }
        if q % 2 != 0 {
            exact = false;
        }
        q = half;
        s += 1;
    }
    proof {
        let w = pow2(s as nat) as int;
        let qi = q as int;
        lemma_pow2_pos(s as nat);
        assert((qi + 1) * w == qi * w + w) by (nonlinear_arith);
        lemma_fundamental_div_mod_converse(p as int, w, qi, p - qi * w);
    }
    (q as u64, s, exact)
}

impl Scaled {
    /// The number that is meant.
    pub open spec fn value(&self) -> nat {
        self.mantissa as nat * pow2(self.exponent as nat)
    }

    /// What `times_down` gives: the product of the mantissas, halved until
    /// it is below `2^63` and rounded down; each halving raises the exponent
    /// by one.
    pub open spec fn floor_product(&self, m: u64) -> Scaled {
        let product = self.mantissa as nat * m as nat;
        Scaled {
            mantissa: rounded_down(product) as u64,
            exponent: (self.exponent + halvings(product)) as u64,
        }
    }

    /// What `times_up` gives: as `floor_product`, but rounded up.
    pub open spec fn ceil_product(&self, m: u64) -> Scaled {
        let product = self.mantissa as nat * m as nat;
        Scaled {
            mantissa: rounded_up(product) as u64,
            exponent: (self.exponent + halvings(product)) as u64,
        }
    }

    /// The number one.
    pub fn one() -> (r: Scaled)
        ensures
            r.mantissa == 1,
            r.exponent == 0,
            r.value() == 1,
    {
        proof {
            lemma2_to64();
        }
        Scaled { mantissa: 1, exponent: 0 }
    }

    /// The product with `m`, with a mantissa below `2^63`: where the product
    /// of the mantissas is longer, its last bits are cut off.
    pub fn times_down(&self, m: u64) -> (r: Scaled)
        requires
            self.exponent <= EXPONENT_LIMIT,
        ensures
            r == self.floor_product(m),
            r.mantissa == rounded_down(self.mantissa as nat * m as nat),
            r.exponent == self.exponent + halvings(self.mantissa as nat * m as nat),
            r.exponent <= self.exponent + 65,
            r.value() <= self.value() * m,
    {
        assert(self.mantissa as int * m as int <= 0xFFFF_FFFF_FFFF_FFFF_FFFF_FFFF_FFFF_FFFF)
            by (nonlinear_arith)
            requires
                0 <= self.mantissa <= 0xFFFF_FFFF_FFFF_FFFF,
                0 <= m <= 0xFFFF_FFFF_FFFF_FFFF,
        ;
        let product: u128 = self.mantissa as u128 * m as u128;
        let (q, s, _) = reduce(product);
        proof {
            let e = pow2(self.exponent as nat) as int;
            let w = pow2(s as nat) as int;
            let a = self.mantissa as int;
            lemma_pow2_adds(s as nat, self.exponent as nat);
            lemma_pow2_pos(self.exponent as nat);
            assert(q * (w * e) <= (a * e) * m) by (nonlinear_arith)
                requires
                    q * w <= a * m,
                    e > 0,
            ;
        }
        Scaled { mantissa: q, exponent: self.exponent + s }
    }

    /// The product with `m`, with a mantissa of at most `2^63`: where the
    /// product of the mantissas is longer, it is rounded up to the next
    /// number that fits.
    pub fn times_up(&self, m: u64) -> (r: Scaled)
        requires
            self.exponent <= EXPONENT_LIMIT,
        ensures
            r == self.ceil_product(m),
            r.mantissa == rounded_up(self.mantissa as nat * m as nat),
            r.exponent == self.exponent + halvings(self.mantissa as nat * m as nat),
            r.exponent <= self.exponent + 65,
            r.value() >= self.value() * m,
    {
        assert(self.mantissa as int * m as int <= 0xFFFF_FFFF_FFFF_FFFF_FFFF_FFFF_FFFF_FFFF)
            by (nonlinear_arith)
            requires
                0 <= self.mantissa <= 0xFFFF_FFFF_FFFF_FFFF,
                0 <= m <= 0xFFFF_FFFF_FFFF_FFFF,
        ;
        let product: u128 = self.mantissa as u128 * m as u128;
        let (q, s, exact) = reduce(product);
        let mantissa = if exact {
            q
        } else {
            q + 1
        };
        proof {
            let e = pow2(self.exponent as nat) as int;
            let w = pow2(s as nat) as int;
            let a = self.mantissa as int;
            lemma_pow2_adds(s as nat, self.exponent as nat);
            lemma_pow2_pos(self.exponent as nat);
            assert(mantissa * (w * e) >= (a * e) * m) by (nonlinear_arith)
                requires
                    mantissa * w >= a * m,
                    e > 0,
            ;
        }
        Scaled { mantissa, exponent: self.exponent + s }
    }

    /// Whether this number is greater than `other`.
    pub fn exceeds(&self, other: &Scaled) -> (r: bool)
        ensures
            r == (self.value() > other.value()),
    {
        if self.exponent >= other.exponent {
            let d = self.exponent - other.exponent;
            proof {
                lemma_pow2_adds(d as nat, other.exponent as nat);
                lemma_pow2_pos(other.exponent as nat);
                lemma_pow2_pos(d as nat);
            }
            let ghost e = pow2(other.exponent as nat) as int;
            let ghost w = pow2(d as nat) as int;
            let ghost a = self.mantissa as int;
            let ghost b = other.mantissa as int;
            assert((a * (w * e) > b * e) == (a * w > b)) by (nonlinear_arith)
                requires
                    e > 0,
            ;
            if self.mantissa == 0 {
                assert(a * w == 0) by (nonlinear_arith)
                    requires
                        a == 0,
                ;
                false
            } else if d >= 64 {
                proof {
                    lemma2_to64();
                    if d > 64 {
                        lemma_pow2_strictly_increases(64, d as nat);
                    }
                    assert(a * w >= 0x1_0000_0000_0000_0000) by (nonlinear_arith)
                        requires
                            a >= 1,
                            w >= 0x1_0000_0000_0000_0000,
                    ;
                }
                true
            } else {
                let factor = power_of_two(d);
                assert(a * w <= 0xFFFF_FFFF_FFFF_FFFF_FFFF_FFFF_FFFF_FFFF) by (nonlinear_arith)
                    requires
                        0 <= a <= 0xFFFF_FFFF_FFFF_FFFF,
                        0 <= w <= 0x8000_0000_0000_0000,
                ;
                self.mantissa as u128 * factor > other.mantissa as u128
            }
        } else {
            let d = other.exponent - self.exponent;
            proof {
                lemma_pow2_adds(d as nat, self.exponent as nat);
                lemma_pow2_pos(self.exponent as nat);
                lemma_pow2_pos(d as nat);
            }
            let ghost e = pow2(self.exponent as nat) as int;
            let ghost w = pow2(d as nat) as int;
            let ghost a = self.mantissa as int;
            let ghost b = other.mantissa as int;
            assert((a * e > b * (w * e)) == (a > b * w)) by (nonlinear_arith)
                requires
                    e > 0,
            ;
            if other.mantissa == 0 {
                assert(b * w == 0) by (nonlinear_arith)
                    requires
                        b == 0,
                ;
                self.mantissa > 0
            } else if d >= 64 {
                proof {
                    lemma2_to64();
                    if d > 64 {
                        lemma_pow2_strictly_increases(64, d as nat);
                    }
                    assert(b * w >= 0x1_0000_0000_0000_0000) by (nonlinear_arith)
                        requires
                            b >= 1,
                            w >= 0x1_0000_0000_0000_0000,
                    ;
                }
                false
            } else {
                let factor = power_of_two(d);
                assert(b * w <= 0xFFFF_FFFF_FFFF_FFFF_FFFF_FFFF_FFFF_FFFF) by (nonlinear_arith)
                    requires
                        0 <= b <= 0xFFFF_FFFF_FFFF_FFFF,
                        0 <= w <= 0x8000_0000_0000_0000,
                ;
                self.mantissa as u128 > other.mantissa as u128 * factor
            }
        }
    }
}

/// Two to the power `d`.
fn power_of_two(d: u64) -> (r: u128)
    requires
        d < 64,
    ensures
        r == pow2(d as nat),
        r <= 0x8000_0000_0000_0000,
{
    let mut r: u128 = 1;
    let mut i: u64 = 0;
    proof {
        lemma2_to64();
        lemma2_to64_rest();
    }
    while i < d
        invariant
            i <= d < 64,
            r == pow2(i as nat),
            pow2(63) == 0x8000_0000_0000_0000,
        decreases d - i,
    {
        proof {
            lemma_pow2_unfold((i + 1) as nat);
            if i + 1 < 63 {
                lemma_pow2_strictly_increases((i + 1) as nat, 63);
            }
        }
        r = r * 2;
        i += 1;
    }
    proof {
        if d < 63 {
            lemma_pow2_strictly_increases(d as nat, 63);
        }
    }
    r
}

} // verus!
