//! Natural numbers without an upper limit, with the two operations that the
//! entropy test needs: multiplying by a machine word, and telling which of
//! two numbers is the greater.

use vstd::arithmetic::power::{lemma_pow0, lemma_pow1, lemma_pow_adds, lemma_pow_increases, lemma_pow_positive, pow};
use vstd::prelude::*;

verus! {

/// The base of the digits: one `u64` is one digit.
pub open spec fn radix() -> int {
    0x1_0000_0000_0000_0000
}

/// The number that `limbs` spell, least significant digit first.
pub open spec fn limbs_value(limbs: Seq<u64>) -> int
    decreases limbs.len(),
{
    if limbs.len() == 0 {
        0
    } else {
        limbs_value(limbs.drop_last()) + limbs.last() as int * pow(
            radix(),
            (limbs.len() - 1) as nat,
        )
    }
}

proof fn pow_step(e: nat)
    ensures
        pow(radix(), e + 1) == radix() * pow(radix(), e),
        pow(radix(), e) > 0,
{
    lemma_pow_adds(radix(), 1, e);
    lemma_pow1(radix());
    lemma_pow_positive(radix(), e);
}

/// A number of `n` digits is below the `n`-th power of the base.
proof fn value_bounds(limbs: Seq<u64>)
    ensures
        0 <= limbs_value(limbs) < pow(radix(), limbs.len()),
    decreases limbs.len(),
{
    if limbs.len() == 0 {
        lemma_pow0(radix());
    } else {
        let e = (limbs.len() - 1) as nat;
        let p = pow(radix(), e);
        let top = limbs.last() as int;
        value_bounds(limbs.drop_last());
        pow_step(e);
        assert(0 <= top * p && top * p + p <= radix() * p) by (nonlinear_arith)
            requires
                0 <= top < radix(),
                p > 0,
        ;
    }
}

/// The value of the first `i + 1` digits, from that of the first `i`.
proof fn value_of_prefix(limbs: Seq<u64>, i: int)
    requires
        0 <= i < limbs.len(),
    ensures
        limbs_value(limbs.take(i + 1)) == limbs_value(limbs.take(i)) + limbs[i] as int * pow(
            radix(),
            i as nat,
        ),
{
    assert(limbs.take(i + 1).drop_last() =~= limbs.take(i));
}

/// Of two numbers of equal length, the one with the greater digit at the
/// highest place where they differ is the greater.
proof fn greater_by_digit(a: Seq<u64>, b: Seq<u64>, k: int)
    requires
        a.len() == b.len(),
        0 <= k < a.len(),
        a[k] > b[k],
        forall|j: int| k < j < a.len() ==> a[j] == b[j],
    ensures
        limbs_value(a) > limbs_value(b),
    decreases a.len(),
{
    let e = (a.len() - 1) as nat;
    let p = pow(radix(), e);
    if k == a.len() - 1 {
        value_bounds(a.drop_last());
        value_bounds(b.drop_last());
        let x = a[k] as int;
        let y = b[k] as int;
        assert(x * p >= y * p + p) by (nonlinear_arith)
            requires
                x > y,
                p > 0,
        ;
    } else {
        greater_by_digit(a.drop_last(), b.drop_last(), k);
    }
}

/// A number whose highest digit is not zero is at least the power of the
/// base that belongs to that digit.
proof fn value_at_least(limbs: Seq<u64>)
    requires
        limbs.len() > 0,
        limbs.last() != 0,
    ensures
        limbs_value(limbs) >= pow(radix(), (limbs.len() - 1) as nat),
{
    let p = pow(radix(), (limbs.len() - 1) as nat);
    let top = limbs.last() as int;
    value_bounds(limbs.drop_last());
    pow_step((limbs.len() - 1) as nat);
    assert(top * p >= p) by (nonlinear_arith)
        requires
            top >= 1,
            p > 0,
    ;
}

/// A natural number of any size.
pub struct BigNat {
    limbs: Vec<u64>,
}

impl BigNat {
    /// The highest digit is not zero; zero has no digits at all.
    pub closed spec fn wf(&self) -> bool {
        self.limbs@.len() == 0 || self.limbs@.last() != 0
    }

    /// The number itself.
    pub closed spec fn value(&self) -> nat {
        limbs_value(self.limbs@) as nat
    }

    /// The number one.
    pub fn one() -> (r: BigNat)
        ensures
            r.wf(),
            r.value() == 1,
    {
        let mut limbs: Vec<u64> = Vec::new();
        limbs.push(1);
        proof {
            assert(limbs@.drop_last() =~= Seq::<u64>::empty());
            lemma_pow0(radix());
            assert(limbs_value(limbs@.drop_last()) == 0);
        }
        BigNat { limbs }
    }

    /// Multiplies the number by `m`.
    pub fn mul_small(&mut self, m: u64)
        requires
            old(self).wf(),
        ensures
            final(self).wf(),
            final(self).value() == old(self).value() * m,
    {
        let ghost before = self.limbs@;
        proof {
            value_bounds(before);
        }
        if m == 0 {
            self.limbs.clear();
            assert(limbs_value(before) * 0 == 0);
            return ;
        }
        let n = self.limbs.len();
        let mut carry: u64 = 0;
        let mut i: usize = 0;
        proof {
            assert(before.take(0) =~= Seq::<u64>::empty());
            assert(self.limbs@.take(0) =~= Seq::<u64>::empty());
        }
        while i < n
            invariant
                m > 0,
                i <= n,
                n == before.len(),
                self.limbs@.len() == n,
                forall|j: int| i <= j < n ==> self.limbs@[j] == before[j],
                limbs_value(self.limbs@.take(i as int)) + carry as int * pow(radix(), i as nat)
                    == limbs_value(before.take(i as int)) * m,
                i > 0 ==> carry as int * radix() + self.limbs@[i - 1] as int >= before[i - 1],
            decreases n - i,
        {
            let ghost prev = self.limbs@;
            let limb = self.limbs[i];
            assert(limb as int * m as int + carry as int <= 0xFFFF_FFFF_FFFF_FFFF_FFFF_FFFF_FFFF_FFFF)
                by (nonlinear_arith)
                requires
                    0 <= limb <= 0xFFFF_FFFF_FFFF_FFFF,
                    0 <= m <= 0xFFFF_FFFF_FFFF_FFFF,
                    0 <= carry <= 0xFFFF_FFFF_FFFF_FFFF,
            ;
            let product: u128 = limb as u128 * m as u128 + carry as u128;
            let low: u64 = (product % 0x1_0000_0000_0000_0000u128) as u64;
            let high: u64 = (product / 0x1_0000_0000_0000_0000u128) as u64;
            self.limbs[i] = low;
            proof {
                let p = pow(radix(), i as nat);
                let v_new = limbs_value(prev.take(i as int));
                let v_old = limbs_value(before.take(i as int));
                assert(self.limbs@.take(i as int) =~= prev.take(i as int));
                value_of_prefix(self.limbs@, i as int);
                value_of_prefix(before, i as int);
                pow_step(i as nat);
                let lo = low as int;
                let hi = high as int;
                let prod = product as int;
                let c = carry as int;
                let l = limb as int;
                let mm = m as int;
                assert(prod == lo + hi * radix());
                assert(v_new + lo * p + hi * (radix() * p) == (v_old + l * p) * mm)
                    by (nonlinear_arith)
                    requires
                        v_new + c * p == v_old * mm,
                        lo + hi * radix() == l * mm + c,
                ;
                assert(l * mm >= l) by (nonlinear_arith)
                    requires
                        l >= 0,
                        mm >= 1,
                ;
            }
            carry = high;
            i += 1;
        }
        proof {
            assert(self.limbs@.take(n as int) =~= self.limbs@);
            assert(before.take(n as int) =~= before);
        }
        if carry != 0 {
            let ghost settled = self.limbs@;
            self.limbs.push(carry);
            proof {
                assert(self.limbs@.drop_last() =~= settled);
            }
        }
        proof {
            value_bounds(self.limbs@);
            let v = limbs_value(before);
            assert(v * m >= 0) by (nonlinear_arith)
                requires
                    v >= 0,
                    m >= 0,
            ;
        }
    }

    /// Whether this number is greater than `other`.
    pub fn exceeds(&self, other: &BigNat) -> (r: bool)
        requires
            self.wf(),
            other.wf(),
        ensures
            r == (self.value() > other.value()),
    {
        let n = self.limbs.len();
        let m = other.limbs.len();
        proof {
            value_bounds(self.limbs@);
            value_bounds(other.limbs@);
        }
        if n > m {
            proof {
                value_at_least(self.limbs@);
                lemma_pow_increases(radix() as nat, m as nat, (n - 1) as nat);
            }
            return true;
        }
        if n < m {
            proof {
                value_at_least(other.limbs@);
                lemma_pow_increases(radix() as nat, n as nat, (m - 1) as nat);
            }
            return false;
        }
        let mut i: usize = n;
        while i > 0
            invariant
                i <= n,
                n == self.limbs@.len(),
                n == other.limbs@.len(),
                forall|j: int| i <= j < n ==> self.limbs@[j] == other.limbs@[j],
            decreases i,
        {
            i -= 1;
            let a = self.limbs[i];
            let b = other.limbs[i];
            if a > b {
                proof {
                    value_bounds(self.limbs@);
                    value_bounds(other.limbs@);
                    greater_by_digit(self.limbs@, other.limbs@, i as int);
                }
                return true;
            }
            if a < b {
                proof {
                    value_bounds(self.limbs@);
                    value_bounds(other.limbs@);
                    greater_by_digit(other.limbs@, self.limbs@, i as int);
                }
                return false;
            }
        }
        assert(self.limbs@ =~= other.limbs@);
        false
    }
}

} // verus!
