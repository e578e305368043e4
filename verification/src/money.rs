//! Exact amounts of money.
//!
//! A [`Money`] is a sign and a fraction of two arbitrary-precision naturals.
//! Its view is the real number that they denote. Sums, differences, products
//! and quotients are computed exactly, so a chain of operations never loses
//! or invents a fractional amount.

use crate::natural::Natural;
use vstd::prelude::*;

verus! {

/// The real number `num / den`, read as zero where `den` is zero.
pub open spec fn fraction(num: nat, den: nat) -> real {
    if den == 0 {
        0real
    } else {
        (num as real) / (den as real)
    }
}

/// A fraction of naturals is never negative.
pub proof fn lemma_fraction_nonnegative(n: nat, d: nat)
    ensures
        fraction(n, d) >= 0real,
{
    if d != 0 {
        let a = n as real;
        let b = d as real;
        assert(a / b >= 0real) by (nonlinear_arith)
            requires
                a >= 0real,
                b > 0real,
        ;
    }
}

/// A fraction is zero exactly when its numerator is.
pub proof fn lemma_fraction_zero(n: nat, d: nat)
    requires
        d > 0,
    ensures
        (fraction(n, d) == 0real) <==> n == 0,
{
    let a = n as real;
    let b = d as real;
    assert((a / b == 0real) <==> a == 0real) by (nonlinear_arith)
        requires
            b > 0real,
    ;
}

/// A fraction over one is its numerator.
pub proof fn lemma_fraction_whole(n: nat)
    ensures
        fraction(n, 1) == n as real,
{
    let a = n as real;
    assert(a / 1real == a) by (nonlinear_arith);
}

pub proof fn lemma_fraction_add(n1: nat, d1: nat, n2: nat, d2: nat)
    requires
        d1 > 0,
        d2 > 0,
    ensures
        d1 * d2 > 0,
        fraction(n1 * d2 + n2 * d1, d1 * d2) == fraction(n1, d1) + fraction(n2, d2),
{
    let a = n1 as real;
    let b = d1 as real;
    let c = n2 as real;
    let d = d2 as real;
    assert(d1 * d2 > 0) by (nonlinear_arith)
        requires
            d1 > 0,
            d2 > 0,
    ;
    assert(((n1 * d2 + n2 * d1) as real) == a * d + c * b) by (nonlinear_arith)
        requires
            a == n1 as real,
            b == d1 as real,
            c == n2 as real,
            d == d2 as real,
    ;
    assert(((d1 * d2) as real) == b * d) by (nonlinear_arith)
        requires
            b == d1 as real,
            d == d2 as real,
    ;
    assert((a * d + c * b) / (b * d) == a / b + c / d) by (nonlinear_arith)
        requires
            b > 0real,
            d > 0real,
    ;
}

pub proof fn lemma_fraction_sub(n1: nat, d1: nat, n2: nat, d2: nat)
    requires
        d1 > 0,
        d2 > 0,
        n2 * d1 <= n1 * d2,
    ensures
        d1 * d2 > 0,
        fraction((n1 * d2 - n2 * d1) as nat, d1 * d2) == fraction(n1, d1) - fraction(n2, d2),
{
    let a = n1 as real;
    let b = d1 as real;
    let c = n2 as real;
    let d = d2 as real;
    assert(d1 * d2 > 0) by (nonlinear_arith)
        requires
            d1 > 0,
            d2 > 0,
    ;
    assert(((n1 * d2 - n2 * d1) as real) == a * d - c * b) by (nonlinear_arith)
        requires
            a == n1 as real,
            b == d1 as real,
            c == n2 as real,
            d == d2 as real,
    ;
    assert(((d1 * d2) as real) == b * d) by (nonlinear_arith)
        requires
            b == d1 as real,
            d == d2 as real,
    ;
    assert((a * d - c * b) / (b * d) == a / b - c / d) by (nonlinear_arith)
        requires
            b > 0real,
            d > 0real,
    ;
}

pub proof fn lemma_fraction_mul(n1: nat, d1: nat, n2: nat, d2: nat)
    requires
        d1 > 0,
        d2 > 0,
    ensures
        d1 * d2 > 0,
        fraction(n1 * n2, d1 * d2) == fraction(n1, d1) * fraction(n2, d2),
{
    let a = n1 as real;
    let b = d1 as real;
    let c = n2 as real;
    let d = d2 as real;
    assert(d1 * d2 > 0) by (nonlinear_arith)
        requires
            d1 > 0,
            d2 > 0,
    ;
    assert(((n1 * n2) as real) == a * c) by (nonlinear_arith)
        requires
            a == n1 as real,
            c == n2 as real,
    ;
    assert(((d1 * d2) as real) == b * d) by (nonlinear_arith)
        requires
            b == d1 as real,
            d == d2 as real,
    ;
    assert((a * c) / (b * d) == (a / b) * (c / d)) by (nonlinear_arith)
        requires
            b > 0real,
            d > 0real,
    ;
}

pub proof fn lemma_fraction_div(n1: nat, d1: nat, n2: nat, d2: nat)
    requires
        d1 > 0,
        d2 > 0,
        n2 > 0,
    ensures
        d1 * n2 > 0,
        fraction(n2, d2) != 0real,
        fraction(n1 * d2, d1 * n2) == fraction(n1, d1) / fraction(n2, d2),
{
    let a = n1 as real;
    let b = d1 as real;
    let c = n2 as real;
    let d = d2 as real;
    assert(d1 * n2 > 0) by (nonlinear_arith)
        requires
            d1 > 0,
            n2 > 0,
    ;
    assert(((n1 * d2) as real) == a * d) by (nonlinear_arith)
        requires
            a == n1 as real,
            d == d2 as real,
    ;
    assert(((d1 * n2) as real) == b * c) by (nonlinear_arith)
        requires
            b == d1 as real,
            c == n2 as real,
    ;
    assert(c / d != 0real && (a * d) / (b * c) == (a / b) / (c / d)) by (nonlinear_arith)
        requires
            b > 0real,
            c > 0real,
            d > 0real,
    ;
}

pub proof fn lemma_fraction_order(n1: nat, d1: nat, n2: nat, d2: nat)
    requires
        d1 > 0,
        d2 > 0,
    ensures
        (n1 * d2 <= n2 * d1) <==> (fraction(n1, d1) <= fraction(n2, d2)),
        (n1 * d2 == n2 * d1) <==> (fraction(n1, d1) == fraction(n2, d2)),
{
    let a = n1 as real;
    let b = d1 as real;
    let c = n2 as real;
    let d = d2 as real;
    assert(((n1 * d2) as real) == a * d) by (nonlinear_arith)
        requires
            a == n1 as real,
            d == d2 as real,
    ;
    assert(((n2 * d1) as real) == c * b) by (nonlinear_arith)
        requires
            c == n2 as real,
            b == d1 as real,
    ;
    assert((a * d <= c * b) <==> (a / b <= c / d)) by (nonlinear_arith)
        requires
            b > 0real,
            d > 0real,
    ;
    assert((a * d == c * b) <==> (a / b == c / d)) by (nonlinear_arith)
        requires
            b > 0real,
            d > 0real,
    ;
}

/// The real number that a sign and a fraction denote.
pub open spec fn signed_fraction(negative: bool, num: nat, den: nat) -> real {
    if negative {
        0real - fraction(num, den)
    } else {
        fraction(num, den)
    }
}

/// The size of a machine integer without its sign.
fn magnitude(n: i64) -> (r: u64)
    ensures
        r as int == if n >= 0 {
            n as int
        } else {
            -(n as int)
        },
{
    if n >= 0 {
        n as u64
    } else {
        (-(n + 1)) as u64 + 1
    }
}

/// An exact amount of money, positive, negative or zero.
pub struct Money {
    negative: bool,
    num: Natural,
    den: Natural,
}

impl View for Money {
    type V = real;

    closed spec fn view(&self) -> real {
        signed_fraction(self.negative, self.num@, self.den@)
    }
}

impl Money {
    #[verifier::type_invariant]
    spec fn well_formed(self) -> bool {
        self.den@ > 0
    }

    /// No money at all.
    pub fn zero() -> (r: Money)
        ensures
            r@ == 0real,
    {
        proof {
            lemma_fraction_whole(0);
        }
        Money { negative: false, num: Natural::zero(), den: Natural::from_u64(1) }
    }

    /// A whole number of units.
    pub fn from_u64(units: u64) -> (r: Money)
        ensures
            r@ == units as real,
    {
        proof {
            lemma_fraction_whole(units as nat);
        }
        Money { negative: false, num: Natural::from_u64(units), den: Natural::from_u64(1) }
    }

    /// A whole number of units, of either sign.
    pub fn from_i64(units: i64) -> (r: Money)
        ensures
            r@ == units as real,
    {
        let negative: bool = units < 0;
        let size: u64 = magnitude(units);
        proof {
            lemma_fraction_whole(size as nat);
        }
        Money { negative, num: Natural::from_u64(size), den: Natural::from_u64(1) }
    }

    /// The fraction `num / den`: `None` exactly when `den` is zero.
    pub fn from_fraction(num: i64, den: u64) -> (r: Option<Money>)
        ensures
            match r {
                Some(m) => den != 0 && m@ == (num as real) / (den as real),
                None => den == 0,
            },
    {
        if den == 0 {
            None
        } else {
            let negative: bool = num < 0;
            let size: u64 = magnitude(num);
            proof {
                let a = size as real;
                let b = den as real;
                assert((0real - a) / b == 0real - a / b) by (nonlinear_arith)
                    requires
                        b > 0real,
                ;
            }
            Some(Money { negative, num: Natural::from_u64(size), den: Natural::from_u64(den) })
        }
    }

    /// The fraction of two naturals, taken below zero where `negative` is
    /// set: `None` exactly when `den` is zero.
    pub fn from_naturals(negative: bool, num: Natural, den: Natural) -> (r: Option<Money>)
        ensures
            match r {
                Some(m) => den@ != 0 && m@ == signed_fraction(negative, num@, den@),
                None => den@ == 0,
            },
    {
        if den.is_zero() {
            None
        } else {
            Some(Money { negative, num, den })
        }
    }

    /// A sign, a numerator and a positive denominator that denote this
    /// amount.
    pub fn parts(&self) -> (r: (bool, &Natural, &Natural))
        ensures
            r.2@ > 0,
            self@ == signed_fraction(r.0, r.1@, r.2@),
    {
        proof {
            use_type_invariant(self);
        }
        (self.negative, &self.num, &self.den)
    }

    /// A copy of this amount.
    pub fn duplicate(&self) -> (r: Money)
        ensures
            r@ == self@,
    {
        proof {
            use_type_invariant(self);
        }
        Money { negative: self.negative, num: self.num.duplicate(), den: self.den.duplicate() }
    }

    /// This amount with its sign turned.
    pub fn neg(&self) -> (r: Money)
        ensures
            r@ == 0real - self@,
    {
        proof {
            use_type_invariant(self);
        }
        Money { negative: !self.negative, num: self.num.duplicate(), den: self.den.duplicate() }
    }

    /// Whether this amount is zero.
    pub fn is_zero(&self) -> (r: bool)
        ensures
            r == (self@ == 0real),
    {
        proof {
            use_type_invariant(self);
            lemma_fraction_zero(self.num@, self.den@);
        }
        self.num.is_zero()
    }

    /// Whether this amount is above zero.
    pub fn is_positive(&self) -> (r: bool)
        ensures
            r == (self@ > 0real),
    {
        proof {
            use_type_invariant(self);
            lemma_fraction_zero(self.num@, self.den@);
            lemma_fraction_nonnegative(self.num@, self.den@);
        }
        !self.negative && !self.num.is_zero()
    }

    /// Whether this amount is below zero.
    pub fn is_negative(&self) -> (r: bool)
        ensures
            r == (self@ < 0real),
    {
        proof {
            use_type_invariant(self);
            lemma_fraction_zero(self.num@, self.den@);
            lemma_fraction_nonnegative(self.num@, self.den@);
        }
        self.negative && !self.num.is_zero()
    }

    /// The sum of two amounts.
    pub fn add(&self, other: &Money) -> (r: Money)
        ensures
            r@ == self@ + other@,
    {
        proof {
            use_type_invariant(self);
            use_type_invariant(other);
            lemma_fraction_add(self.num@, self.den@, other.num@, other.den@);
            lemma_fraction_order(other.num@, other.den@, self.num@, self.den@);
            lemma_fraction_order(self.num@, self.den@, other.num@, other.den@);
        }
        let left: Natural = self.num.mul(&other.den);
        let right: Natural = other.num.mul(&self.den);
        let den: Natural = self.den.mul(&other.den);
        if self.negative == other.negative {
            Money { negative: self.negative, num: left.add(&right), den }
        } else {
            match left.checked_sub(&right) {
                Some(num) => {
                    proof {
                        lemma_fraction_sub(self.num@, self.den@, other.num@, other.den@);
                    }
                    Money { negative: self.negative, num, den }
                },
                None => {
                    proof {
                        lemma_fraction_sub(other.num@, other.den@, self.num@, self.den@);
                        assert(other.den@ * self.den@ == self.den@ * other.den@)
                            by (nonlinear_arith);
                    }
                    match right.checked_sub(&left) {
                        Some(num) => Money { negative: other.negative, num, den },
                        None => Money::zero(),
                    }
                },
            }
        }
    }

    /// This amount less `other`.
    pub fn sub(&self, other: &Money) -> (r: Money)
        ensures
            r@ == self@ - other@,
    {
        let turned: Money = other.neg();
        self.add(&turned)
    }

    /// The product of two amounts.
    pub fn mul(&self, other: &Money) -> (r: Money)
        ensures
            r@ == self@ * other@,
    {
        proof {
            use_type_invariant(self);
            use_type_invariant(other);
            lemma_fraction_mul(self.num@, self.den@, other.num@, other.den@);
            let a = fraction(self.num@, self.den@);
            let b = fraction(other.num@, other.den@);
            assert((0real - a) * b == 0real - a * b && a * (0real - b) == 0real - a * b && (0real
                - a) * (0real - b) == a * b) by (nonlinear_arith);
        }
        Money {
            negative: self.negative != other.negative,
            num: self.num.mul(&other.num),
            den: self.den.mul(&other.den),
        }
    }

    /// This amount taken `count` times.
    pub fn times(&self, count: i64) -> (r: Money)
        ensures
            r@ == self@ * (count as real),
    {
        let factor: Money = Money::from_i64(count);
        self.mul(&factor)
    }

    /// This amount divided by `other`: `None` exactly when `other` is zero.
    pub fn checked_div(&self, other: &Money) -> (r: Option<Money>)
        ensures
            match r {
                Some(q) => other@ != 0real && q@ == self@ / other@,
                None => other@ == 0real,
            },
    {
        proof {
            use_type_invariant(self);
            use_type_invariant(other);
            lemma_fraction_zero(other.num@, other.den@);
        }
        if other.num.is_zero() {
            None
        } else {
            proof {
                lemma_fraction_div(self.num@, self.den@, other.num@, other.den@);
                let a = fraction(self.num@, self.den@);
                let b = fraction(other.num@, other.den@);
                assert((0real - a) / b == 0real - a / b && a / (0real - b) == 0real - a / b && (
                0real - a) / (0real - b) == a / b) by (nonlinear_arith)
                    requires
                        b != 0real,
                ;
            }
            Some(
                Money {
                    negative: self.negative != other.negative,
                    num: self.num.mul(&other.den),
                    den: self.den.mul(&other.num),
                },
            )
        }
    }

    /// Whether this amount is at most `other`.
    pub fn le(&self, other: &Money) -> (r: bool)
        ensures
            r == (self@ <= other@),
    {
        let difference: Money = self.sub(other);
        !difference.is_positive()
    }

    /// Whether this amount is below `other`.
    pub fn lt(&self, other: &Money) -> (r: bool)
        ensures
            r == (self@ < other@),
    {
        let difference: Money = self.sub(other);
        difference.is_negative()
    }

    /// Whether the two amounts are the same number, however each is written.
    pub fn equals(&self, other: &Money) -> (r: bool)
        ensures
            r == (self@ == other@),
    {
        let difference: Money = self.sub(other);
        difference.is_zero()
    }
}

} // verus!
