//! Arbitrary-precision natural numbers.
//!
//! A [`Natural`] is a little-endian sequence of 32-bit limbs. Its view is the
//! mathematical natural number that the limbs denote, and every operation is
//! exact: nothing here wraps, saturates or rounds.

use vstd::prelude::*;

verus! {

/// The base of the limb representation, two to the power thirty-two.
pub open spec fn radix() -> nat {
    4294967296
}

/// `radix()` raised to the power `k`.
pub open spec fn radix_pow(k: nat) -> nat
    decreases k,
{
    if k == 0 {
        1
    } else {
        radix() * radix_pow((k - 1) as nat)
    }
}

/// The limb at position `i`, reading positions past the end as zero.
pub open spec fn limb_at(limbs: Seq<u32>, i: nat) -> nat {
    if i < limbs.len() {
        limbs[i as int] as nat
    } else {
        0
    }
}

/// The number denoted by the `k` lowest limbs.
pub open spec fn low_value(limbs: Seq<u32>, k: nat) -> nat
    decreases k,
{
    if k == 0 {
        0
    } else {
        low_value(limbs, (k - 1) as nat) + limb_at(limbs, (k - 1) as nat) * radix_pow(
            (k - 1) as nat,
        )
    }
}

/// The number denoted by a whole limb sequence.
pub open spec fn limbs_value(limbs: Seq<u32>) -> nat {
    low_value(limbs, limbs.len())
}

/// The number denoted by the limbs from position `j` upwards, with limb `j`
/// as the least significant.
pub open spec fn high_value(limbs: Seq<u32>, j: nat) -> nat
    decreases limbs.len() - j,
{
    if j >= limbs.len() {
        0
    } else {
        limbs[j as int] as nat + radix() * high_value(limbs, j + 1)
    }
}

pub proof fn lemma_radix_pow_positive(k: nat)
    ensures
        radix_pow(k) > 0,
    decreases k,
{
    if k > 0 {
        lemma_radix_pow_positive((k - 1) as nat);
        assert(radix() * radix_pow((k - 1) as nat) > 0) by (nonlinear_arith)
            requires
                radix_pow((k - 1) as nat) > 0,
                radix() > 0,
        ;
    }
}

/// Limbs past the end contribute nothing.
pub proof fn lemma_low_value_beyond(limbs: Seq<u32>, k: nat)
    requires
        k >= limbs.len(),
    ensures
        low_value(limbs, k) == limbs_value(limbs),
    decreases k,
{
    if k > limbs.len() {
        lemma_low_value_beyond(limbs, (k - 1) as nat);
        assert(0 * radix_pow((k - 1) as nat) == 0) by (nonlinear_arith);
    }
}

/// The low limbs of a sequence do not change when a limb is appended.
pub proof fn lemma_low_value_push(limbs: Seq<u32>, x: u32, k: nat)
    requires
        k <= limbs.len(),
    ensures
        low_value(limbs.push(x), k) == low_value(limbs, k),
    decreases k,
{
    if k > 0 {
        lemma_low_value_push(limbs, x, (k - 1) as nat);
        assert(limb_at(limbs.push(x), (k - 1) as nat) == limb_at(limbs, (k - 1) as nat));
    }
}

/// Appending a limb adds that limb, scaled to its position.
pub proof fn lemma_limbs_value_push(limbs: Seq<u32>, x: u32)
    ensures
        limbs_value(limbs.push(x)) == limbs_value(limbs) + x as nat * radix_pow(limbs.len()),
{
    lemma_low_value_push(limbs, x, limbs.len());
    assert(limb_at(limbs.push(x), limbs.len()) == x as nat);
}

/// `k` limbs denote a number below `radix()` to the power `k`.
pub proof fn lemma_low_value_bound(limbs: Seq<u32>, k: nat)
    ensures
        low_value(limbs, k) < radix_pow(k),
    decreases k,
{
    if k > 0 {
        let p = radix_pow((k - 1) as nat);
        let d = limb_at(limbs, (k - 1) as nat);
        lemma_low_value_bound(limbs, (k - 1) as nat);
        assert(d <= 4294967295);
        assert(low_value(limbs, (k - 1) as nat) + d * p < 4294967296 * p) by (nonlinear_arith)
            requires
                low_value(limbs, (k - 1) as nat) < p,
                d <= 4294967295,
        ;
    }
}

/// The low part never decreases as more limbs are taken in.
pub proof fn lemma_low_value_monotone(limbs: Seq<u32>, j: nat, k: nat)
    requires
        j <= k,
    ensures
        low_value(limbs, j) <= low_value(limbs, k),
    decreases k,
{
    if j < k {
        lemma_low_value_monotone(limbs, j, (k - 1) as nat);
    }
}

/// The low and the high part of a limb sequence add up to the whole.
pub proof fn lemma_low_high_split(limbs: Seq<u32>, j: nat)
    requires
        j <= limbs.len(),
    ensures
        limbs_value(limbs) == low_value(limbs, j) + radix_pow(j) * high_value(limbs, j),
    decreases limbs.len() - j,
{
    if j < limbs.len() {
        lemma_low_high_split(limbs, j + 1);
        let p = radix_pow(j);
        let d = limbs[j as int] as nat;
        let h = high_value(limbs, j + 1);
        assert(radix_pow(j + 1) == 4294967296 * p);
        assert(d * p + (4294967296 * p) * h == p * (d + 4294967296 * h)) by (nonlinear_arith);
    } else {
        assert(radix_pow(j) * 0 == 0) by (nonlinear_arith);
    }
}

/// Putting a zero limb in front multiplies by `radix()`.
pub proof fn lemma_low_value_shift(limbs: Seq<u32>, k: nat)
    ensures
        low_value(seq![0u32] + limbs, k + 1) == radix() * low_value(limbs, k),
    decreases k,
{
    let shifted = seq![0u32] + limbs;
    if k == 0 {
        assert(low_value(shifted, 0) == 0);
        assert(limb_at(shifted, 0) == 0);
        assert(low_value(shifted, 1) == low_value(shifted, 0) + limb_at(shifted, 0) * radix_pow(0));
    } else {
        lemma_low_value_shift(limbs, (k - 1) as nat);
        let d = limb_at(limbs, (k - 1) as nat);
        assert(limb_at(shifted, k) == d) by {
            if k - 1 < limbs.len() {
                assert(shifted[k as int] == limbs[k - 1]);
            }
        }
        let p = radix_pow((k - 1) as nat);
        let l = low_value(limbs, (k - 1) as nat);
        assert(radix_pow(k) == 4294967296 * p);
        assert(4294967296 * l + d * (4294967296 * p) == 4294967296 * (l + d * p))
            by (nonlinear_arith);
    }
}

/// An arbitrary-precision natural number.
pub struct Natural {
    limbs: Vec<u32>,
}

impl View for Natural {
    type V = nat;

    closed spec fn view(&self) -> nat {
        limbs_value(self.limbs@)
    }
}

impl Natural {
    /// The number zero.
    pub fn zero() -> (r: Natural)
        ensures
            r@ == 0,
    {
        Natural { limbs: Vec::new() }
    }

    /// The number held by a machine word.
    pub fn from_u64(n: u64) -> (r: Natural)
        ensures
            r@ == n as nat,
    {
        let lo: u32 = (n % 4294967296) as u32;
        let hi: u32 = (n / 4294967296) as u32;
        let mut limbs: Vec<u32> = Vec::new();
        limbs.push(lo);
        limbs.push(hi);
        proof {
            let s0 = Seq::<u32>::empty();
            lemma_limbs_value_push(s0, lo);
            lemma_limbs_value_push(s0.push(lo), hi);
            assert(limbs@ =~= s0.push(lo).push(hi));
            assert(limbs_value(s0) == 0);
            assert(radix_pow(0) == 1);
            assert(radix_pow(1) == 4294967296 * radix_pow(0));
            assert(lo as nat * 1 + hi as nat * 4294967296 == n as nat);
        }
        Natural { limbs }
    }

    /// The number denoted by the given limbs, least significant first.
    pub fn from_limbs(limbs: Vec<u32>) -> (r: Natural)
        ensures
            r@ == limbs_value(limbs@),
    {
        Natural { limbs }
    }

    /// The limbs of this number, least significant first.
    pub fn limbs(&self) -> (r: &Vec<u32>)
        ensures
            limbs_value(r@) == self@,
    {
        &self.limbs
    }

    /// A copy of this number.
    pub fn duplicate(&self) -> (r: Natural)
        ensures
            r@ == self@,
    {
        let mut limbs: Vec<u32> = Vec::new();
        let mut i: usize = 0;
        while i < self.limbs.len()
            invariant
                i <= self.limbs.len(),
                limbs@ == self.limbs@.take(i as int),
            decreases self.limbs.len() - i,
        {
            limbs.push(self.limbs[i]);
            assert(self.limbs@.take(i as int).push(self.limbs@[i as int]) =~= self.limbs@.take(
                i + 1,
            ));
            i += 1;
        }
        assert(limbs@ =~= self.limbs@);
        Natural { limbs }
    }

    /// Whether this number is zero.
    pub fn is_zero(&self) -> (r: bool)
        ensures
            r == (self@ == 0),
    {
        let mut i: usize = 0;
        while i < self.limbs.len()
            invariant
                i <= self.limbs.len(),
                low_value(self.limbs@, i as nat) == 0,
            decreases self.limbs.len() - i,
        {
            if self.limbs[i] != 0 {
                proof {
                    let d = self.limbs@[i as int] as nat;
                    let p = radix_pow(i as nat);
                    lemma_radix_pow_positive(i as nat);
                    assert(d * p > 0) by (nonlinear_arith)
                        requires
                            d > 0,
                            p > 0,
                    ;
                    assert(low_value(self.limbs@, (i + 1) as nat) > 0);
                    lemma_low_value_monotone(self.limbs@, (i + 1) as nat, self.limbs@.len());
                }
                return false;
            }
            assert(low_value(self.limbs@, (i + 1) as nat) == 0) by {
                assert(0 * radix_pow(i as nat) == 0) by (nonlinear_arith);
            }
            i += 1;
        }
        true
    }

    /// This number as a machine word, where it fits in one.
    pub fn to_u64(&self) -> (r: Option<u64>)
        ensures
            match r {
                Some(n) => self@ == n as nat,
                None => self@ > u64::MAX as nat,
            },
    {
        let n: usize = self.limbs.len();
        let lo: u64 = if n > 0 {
            self.limbs[0] as u64
        } else {
            0
        };
        let hi: u64 = if n > 1 {
            self.limbs[1] as u64
        } else {
            0
        };
        proof {
            assert(low_value(self.limbs@, 0) == 0);
            assert(radix_pow(0) == 1);
            assert(radix_pow(1) == 4294967296 * radix_pow(0));
            assert(radix_pow(2) == 4294967296 * radix_pow(1));
            assert(low_value(self.limbs@, 1) == low_value(self.limbs@, 0) + limb_at(
                self.limbs@,
                0,
            ) * radix_pow(0));
            assert(low_value(self.limbs@, 2) == low_value(self.limbs@, 1) + limb_at(
                self.limbs@,
                1,
            ) * radix_pow(1));
            assert(low_value(self.limbs@, 2) == lo + hi * 4294967296);
        }
        let mut i: usize = 2;
        while i < n
            invariant
                n == self.limbs.len(),
                2 <= i,
                i <= n || n < 2,
                low_value(self.limbs@, i as nat) == lo + hi * 4294967296,
            decreases n - i,
        {
            if self.limbs[i] != 0 {
                proof {
                    let d = self.limbs@[i as int] as nat;
                    let p = radix_pow(i as nat);
                    lemma_radix_pow_at_least(2, i as nat);
                    assert(d * p >= 18446744073709551616) by (nonlinear_arith)
                        requires
                            d >= 1,
                            p >= 18446744073709551616,
                    ;
                    lemma_low_value_monotone(self.limbs@, (i + 1) as nat, self.limbs@.len());
                }
                return None;
            }
            assert(low_value(self.limbs@, (i + 1) as nat) == low_value(self.limbs@, i as nat)) by {
                assert(0 * radix_pow(i as nat) == 0) by (nonlinear_arith);
            }
            i += 1;
        }
        proof {
            lemma_low_value_beyond(self.limbs@, i as nat);
        }
        Some(lo + hi * 4294967296)
    }

    /// The sum of two numbers.
    pub fn add(&self, other: &Natural) -> (r: Natural)
        ensures
            r@ == self@ + other@,
    {
        let n: usize = if self.limbs.len() > other.limbs.len() {
            self.limbs.len()
        } else {
            other.limbs.len()
        };
        let mut out: Vec<u32> = Vec::new();
        let mut carry: u64 = 0;
        let mut i: usize = 0;
        while i < n
            invariant
                i <= n,
                n >= self.limbs.len(),
                n >= other.limbs.len(),
                out@.len() == i,
                carry <= 1,
                limbs_value(out@) + carry * radix_pow(i as nat) == low_value(self.limbs@, i as nat)
                    + low_value(other.limbs@, i as nat),
            decreases n - i,
        {
            let a: u64 = if i < self.limbs.len() {
                self.limbs[i] as u64
            } else {
                0
            };
            let b: u64 = if i < other.limbs.len() {
                other.limbs[i] as u64
            } else {
                0
            };
            let t: u64 = a + b + carry;
            let lo: u32 = (t % 4294967296) as u32;
            let next: u64 = t / 4294967296;
            proof {
                let p = radix_pow(i as nat);
                lemma_limbs_value_push(out@, lo);
                assert(radix_pow((i + 1) as nat) == 4294967296 * p);
                assert(a == limb_at(self.limbs@, i as nat));
                assert(b == limb_at(other.limbs@, i as nat));
                assert(lo as nat * p + next * (4294967296 * p) == (a + b + carry) * p)
                    by (nonlinear_arith)
                    requires
                        lo as nat + next * 4294967296 == a + b + carry,
                ;
                assert((a + b + carry) * p == a * p + b * p + carry * p) by (nonlinear_arith);
            }
            out.push(lo);
            carry = next;
            i += 1;
        }
        proof {
            lemma_low_value_beyond(self.limbs@, n as nat);
            lemma_low_value_beyond(other.limbs@, n as nat);
            lemma_limbs_value_push(out@, carry as u32);
        }
        out.push(carry as u32);
        Natural { limbs: out }
    }

    /// The difference of two numbers, where it is a natural number.
    pub fn checked_sub(&self, other: &Natural) -> (r: Option<Natural>)
        ensures
            match r {
                Some(d) => self@ == other@ + d@,
                None => self@ < other@,
            },
    {
        let n: usize = if self.limbs.len() > other.limbs.len() {
            self.limbs.len()
        } else {
            other.limbs.len()
        };
        let mut out: Vec<u32> = Vec::new();
        let mut borrow: u64 = 0;
        let mut i: usize = 0;
        while i < n
            invariant
                i <= n,
                n >= self.limbs.len(),
                n >= other.limbs.len(),
                out@.len() == i,
                borrow <= 1,
                low_value(self.limbs@, i as nat) + borrow * radix_pow(i as nat) == low_value(
                    other.limbs@,
                    i as nat,
                ) + limbs_value(out@),
            decreases n - i,
        {
            let a: u64 = if i < self.limbs.len() {
                self.limbs[i] as u64
            } else {
                0
            };
            let b: u64 = if i < other.limbs.len() {
                other.limbs[i] as u64
            } else {
                0
            };
            let t: u64 = 4294967296 + a - b - borrow;
            let lo: u32 = (t % 4294967296) as u32;
            let next: u64 = if t < 4294967296 {
                1
            } else {
                0
            };
            proof {
                let p = radix_pow(i as nat);
                lemma_limbs_value_push(out@, lo);
                assert(radix_pow((i + 1) as nat) == 4294967296 * p);
                assert(a == limb_at(self.limbs@, i as nat));
                assert(b == limb_at(other.limbs@, i as nat));
                assert(a + next * 4294967296 == b + borrow + lo as nat);
                assert(a * p + next * (4294967296 * p) == b * p + borrow * p + lo as nat * p)
                    by (nonlinear_arith)
                    requires
                        a + next * 4294967296 == b + borrow + lo as nat,
                ;
            }
            out.push(lo);
            borrow = next;
            i += 1;
        }
        proof {
            lemma_low_value_beyond(self.limbs@, n as nat);
            lemma_low_value_beyond(other.limbs@, n as nat);
            lemma_low_value_bound(out@, n as nat);
        }
        if borrow == 1 {
            None
        } else {
            Some(Natural { limbs: out })
        }
    }

    /// Whether this number is at most `other`.
    pub fn le(&self, other: &Natural) -> (r: bool)
        ensures
            r == (self@ <= other@),
    {
        other.checked_sub(self).is_some()
    }

    /// Whether this number is below `other`.
    pub fn lt(&self, other: &Natural) -> (r: bool)
        ensures
            r == (self@ < other@),
    {
        self.checked_sub(other).is_none()
    }

    /// Whether the two numbers are the same.
    pub fn equals(&self, other: &Natural) -> (r: bool)
        ensures
            r == (self@ == other@),
    {
        match self.checked_sub(other) {
            Some(d) => d.is_zero(),
            None => false,
        }
    }

    /// The product of this number and a single limb.
    pub fn mul_small(&self, factor: u32) -> (r: Natural)
        ensures
            r@ == self@ * factor as nat,
    {
        let n: usize = self.limbs.len();
        let mut out: Vec<u32> = Vec::new();
        let mut carry: u64 = 0;
        let mut i: usize = 0;
        assert(0 * factor as nat == 0 && 0 * radix_pow(0) == 0) by (nonlinear_arith);
        while i < n
            invariant
                i <= n,
                n == self.limbs.len(),
                out@.len() == i,
                carry < 4294967296,
                limbs_value(out@) + carry * radix_pow(i as nat) == low_value(self.limbs@, i as nat)
                    * factor as nat,
            decreases n - i,
        {
            let a: u64 = self.limbs[i] as u64;
            assert(a * (factor as u64) + carry < 18446744073709551616) by (nonlinear_arith)
                requires
                    a <= 4294967295,
                    factor <= 4294967295,
                    carry <= 4294967295,
            ;
            let t: u64 = a * (factor as u64) + carry;
            let lo: u32 = (t % 4294967296) as u32;
            let next: u64 = t / 4294967296;
            proof {
                let p = radix_pow(i as nat);
                let f = factor as nat;
                let l = low_value(self.limbs@, i as nat);
                lemma_limbs_value_push(out@, lo);
                assert(radix_pow((i + 1) as nat) == 4294967296 * p);
                assert(a == limb_at(self.limbs@, i as nat));
                assert(lo as nat * p + next * (4294967296 * p) == (a * f + carry) * p)
                    by (nonlinear_arith)
                    requires
                        lo as nat + next * 4294967296 == a * f + carry,
                ;
                assert((l + a * p) * f == l * f + (a * f + carry) * p - carry * p)
                    by (nonlinear_arith);
            }
            out.push(lo);
            carry = next;
            i += 1;
        }
        proof {
            lemma_limbs_value_push(out@, carry as u32);
        }
        out.push(carry as u32);
        Natural { limbs: out }
    }

    /// This number multiplied by `radix()`.
    pub fn shift_limb(&self) -> (r: Natural)
        ensures
            r@ == radix() * self@,
    {
        let n: usize = self.limbs.len();
        let mut out: Vec<u32> = Vec::new();
        out.push(0);
        let mut i: usize = 0;
        while i < n
            invariant
                i <= n,
                n == self.limbs.len(),
                out@ == seq![0u32] + self.limbs@.take(i as int),
            decreases n - i,
        {
            out.push(self.limbs[i]);
            assert((seq![0u32] + self.limbs@.take(i as int)).push(self.limbs@[i as int]) =~= seq![
                0u32,
            ] + self.limbs@.take(i + 1));
            i += 1;
        }
        proof {
            assert(self.limbs@.take(n as int) =~= self.limbs@);
            lemma_low_value_shift(self.limbs@, n as nat);
        }
        Natural { limbs: out }
    }

    /// The product of two numbers.
    pub fn mul(&self, other: &Natural) -> (r: Natural)
        ensures
            r@ == self@ * other@,
    {
        let mut acc: Natural = Natural::zero();
        let mut j: usize = other.limbs.len();
        assert(self@ * 0 == 0) by (nonlinear_arith);
        while j > 0
            invariant
                j <= other.limbs.len(),
                acc@ == self@ * high_value(other.limbs@, j as nat),
            decreases j,
        {
            j -= 1;
            let shifted: Natural = acc.shift_limb();
            let term: Natural = self.mul_small(other.limbs[j]);
            proof {
                let d = other.limbs@[j as int] as nat;
                let h = high_value(other.limbs@, (j + 1) as nat);
                let s = self@;
                assert(4294967296 * (s * h) + s * d == s * (d + 4294967296 * h))
                    by (nonlinear_arith);
            }
            acc = shifted.add(&term);
        }
        proof {
            lemma_low_high_split(other.limbs@, 0);
            assert(radix_pow(0) * high_value(other.limbs@, 0) == high_value(other.limbs@, 0))
                by (nonlinear_arith)
                requires
                    radix_pow(0) == 1,
            ;
        }
        acc
    }
}

/// From the second power on, `radix_pow` exceeds every machine word.
pub proof fn lemma_radix_pow_at_least(j: nat, k: nat)
    requires
        j <= k,
    ensures
        radix_pow(j) <= radix_pow(k),
        j == 2 ==> radix_pow(k) >= 18446744073709551616,
    decreases k,
{
    if j < k {
        lemma_radix_pow_at_least(j, (k - 1) as nat);
        lemma_radix_pow_positive((k - 1) as nat);
        assert(radix_pow(k) == 4294967296 * radix_pow((k - 1) as nat));
        assert(radix_pow((k - 1) as nat) <= 4294967296 * radix_pow((k - 1) as nat))
            by (nonlinear_arith)
            requires
                radix_pow((k - 1) as nat) > 0,
        ;
    }
    if j == 2 {
        assert(radix_pow(0) == 1);
        assert(radix_pow(1) == 4294967296 * radix_pow(0));
        assert(radix_pow(2) == 4294967296 * radix_pow(1));
    }
}

} // verus!
