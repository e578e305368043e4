//! Decimal numbers as text, and caps written as decimal numbers.
//!
//! A decimal is a run of digits with at most one point in it and at least
//! one digit, with an optional sign in front: `12`, `12.5`, `.5`, `12.`,
//! `-1`, `+3.25`. It is read exactly, digit by digit; there is no exponent
//! and no name for a number that is none.

use crate::data::Fault;
use crate::money::{lemma_fraction_whole, Money};
use crate::natural::Natural;
use vstd::prelude::*;
use vstd::slice::slice_subrange;
use vstd::string::StringSliceAdditionalSpecFns;

verus! {

/// Whether a byte is one of the digits `0` to `9`.
pub open spec fn is_digit(b: u8) -> bool {
    48 <= b <= 57
}

/// Whether every byte of the sequence is a digit.
pub open spec fn all_digits(s: Seq<u8>) -> bool {
    forall|i: int| 0 <= i < s.len() ==> is_digit(#[trigger] s[i])
}

/// The number that a run of digits denotes in base ten.
pub open spec fn digits_value(s: Seq<u8>) -> nat
    decreases s.len(),
{
    if s.len() == 0 {
        0
    } else {
        10 * digits_value(s.drop_last()) + (s.last() - 48) as nat
    }
}

/// Ten to the power `k`.
pub open spec fn pow10(k: nat) -> nat
    decreases k,
{
    if k == 0 {
        1
    } else {
        10 * pow10((k - 1) as nat)
    }
}

/// Whether `s` is an unsigned decimal whose digits before the point end at
/// `dot`. With no point in it, `dot` is the length of `s`.
pub open spec fn decimal_at(s: Seq<u8>, dot: int) -> bool {
    &&& 0 <= dot <= s.len()
    &&& all_digits(s.subrange(0, dot))
    &&& dot < s.len() ==> s[dot] == 46 && all_digits(s.subrange(dot + 1, s.len() as int))
    &&& dot < s.len() ==> s.len() > 1
    &&& s.len() > 0
}

/// The value of an unsigned decimal whose digits before the point end at
/// `dot`.
pub open spec fn decimal_value_at(s: Seq<u8>, dot: int) -> real {
    if dot < s.len() {
        let fraction = s.subrange(dot + 1, s.len() as int);
        digits_value(s.subrange(0, dot)) as real + digits_value(fraction) as real / (pow10(
            fraction.len(),
        ) as real)
    } else {
        digits_value(s) as real
    }
}

/// Whether `s` is an unsigned decimal.
pub open spec fn is_decimal(s: Seq<u8>) -> bool {
    exists|dot: int| decimal_at(s, dot)
}

/// The value of an unsigned decimal.
pub open spec fn decimal_value(s: Seq<u8>) -> real {
    decimal_value_at(s, choose|dot: int| decimal_at(s, dot))
}

/// Whether `s` starts with a sign.
pub open spec fn has_sign(s: Seq<u8>) -> bool {
    s.len() > 0 && (s[0] == 45 || s[0] == 43)
}

/// What follows the sign of `s`, or all of `s` where it has no sign.
pub open spec fn unsigned_part(s: Seq<u8>) -> Seq<u8> {
    if has_sign(s) {
        s.subrange(1, s.len() as int)
    } else {
        s
    }
}

/// Whether `s` is a decimal with an optional sign in front.
pub open spec fn is_signed_decimal(s: Seq<u8>) -> bool {
    is_decimal(unsigned_part(s))
}

/// Whether `s` starts with a minus sign.
pub open spec fn is_negative(s: Seq<u8>) -> bool {
    s.len() > 0 && s[0] == 45
}

/// The value of a decimal with an optional sign in front.
pub open spec fn signed_value(s: Seq<u8>) -> real {
    if is_negative(s) {
        0real - decimal_value(unsigned_part(s))
    } else {
        decimal_value(unsigned_part(s))
    }
}

/// What a cap written as `s` means: `None` where `s` is no decimal; no cap
/// where it is a number below zero; else the number as the cap.
pub open spec fn cap_meaning(s: Seq<u8>) -> Option<Option<real>> {
    if !is_signed_decimal(s) {
        None
    } else if signed_value(s) < 0real {
        Some(None)
    } else {
        Some(Some(signed_value(s)))
    }
}

/// A decimal has its point in one place only.
pub proof fn lemma_decimal_at_unique(s: Seq<u8>, a: int, b: int)
    requires
        decimal_at(s, a),
        decimal_at(s, b),
    ensures
        a == b,
{
    if a < b {
        assert(s.subrange(0, b)[a] == s[a]);
    } else if b < a {
        assert(s.subrange(0, a)[b] == s[b]);
    }
}

proof fn lemma_pow10_positive(k: nat)
    ensures
        pow10(k) > 0,
    decreases k,
{
    if k > 0 {
        lemma_pow10_positive((k - 1) as nat);
    }
}

/// The number that the digits from `from` up to `to` denote.
fn read_digits(bytes: &[u8], from: usize, to: usize) -> (r: Natural)
    requires
        from <= to <= bytes@.len(),
        all_digits(bytes@.subrange(from as int, to as int)),
    ensures
        r@ == digits_value(bytes@.subrange(from as int, to as int)),
{
    let mut value: Natural = Natural::zero();
    let mut i: usize = from;
    assert(bytes@.subrange(from as int, from as int) =~= Seq::<u8>::empty());
    while i < to
        invariant
            from <= i <= to,
            to <= bytes@.len(),
            all_digits(bytes@.subrange(from as int, to as int)),
            value@ == digits_value(bytes@.subrange(from as int, i as int)),
        decreases to - i,
    {
        let b: u8 = bytes[i];
        proof {
            assert(bytes@.subrange(from as int, to as int)[i - from] == b);
            assert(bytes@.subrange(from as int, i + 1).drop_last() =~= bytes@.subrange(
                from as int,
                i as int,
            ));
        }
        let digit: Natural = Natural::from_u64((b - 48) as u64);
        value = value.mul_small(10).add(&digit);
        i += 1;
    }
    value
}

/// Ten to the power `k`.
fn power_of_ten(k: usize) -> (r: Natural)
    ensures
        r@ == pow10(k as nat),
{
    let mut value: Natural = Natural::from_u64(1);
    let mut i: usize = 0;
    while i < k
        invariant
            i <= k,
            value@ == pow10(i as nat),
        decreases k - i,
    {
        value = value.mul_small(10);
        i += 1;
    }
    value
}

/// The end of the run of digits that starts at `from`.
fn skip_digits(bytes: &[u8], from: usize) -> (r: usize)
    requires
        from <= bytes@.len(),
    ensures
        from <= r <= bytes@.len(),
        all_digits(bytes@.subrange(from as int, r as int)),
        r < bytes@.len() ==> !is_digit(bytes@[r as int]),
{
    let mut i: usize = from;
    while i < bytes.len() && 48 <= bytes[i] && bytes[i] <= 57
        invariant
            from <= i <= bytes@.len(),
            all_digits(bytes@.subrange(from as int, i as int)),
        decreases bytes@.len() - i,
    {
        assert forall|k: int| 0 <= k < i + 1 - from implies is_digit(
            #[trigger] bytes@.subrange(from as int, i + 1)[k],
        ) by {
            if k < i - from {
                assert(bytes@.subrange(from as int, i as int)[k] == bytes@[from + k]);
            }
        }
        i += 1;
    }
    i
}

/// Reads an unsigned decimal: `None` exactly where the bytes are none.
pub fn parse_unsigned(bytes: &[u8]) -> (r: Option<Money>)
    ensures
        match r {
            Some(m) => is_decimal(bytes@) && m@ == decimal_value(bytes@),
            None => !is_decimal(bytes@),
        },
{
    let n: usize = bytes.len();
    let dot: usize = skip_digits(bytes, 0);
    if dot == n {
        if n == 0 {
            assert(!is_decimal(bytes@));
            return None;
        }
        proof {
            assert(bytes@.subrange(0, n as int) =~= bytes@);
            assert(decimal_at(bytes@, n as int));
            lemma_decimal_at_unique(bytes@, n as int, choose|d: int| decimal_at(bytes@, d));
            lemma_fraction_whole(digits_value(bytes@));
        }
        let whole: Natural = read_digits(bytes, 0, n);
        return Money::from_naturals(false, whole, Natural::from_u64(1));
    }
    if bytes[dot] != 46 {
        proof {
            if is_decimal(bytes@) {
                let d = choose|d: int| decimal_at(bytes@, d);
                if d > dot {
                    assert(bytes@.subrange(0, d)[dot as int] == bytes@[dot as int]);
                } else if d < dot {
                    assert(bytes@.subrange(0, dot as int)[d] == bytes@[d]);
                }
            }
        }
        return None;
    }
    let end: usize = skip_digits(bytes, dot + 1);
    if end != n || n == 1 {
        proof {
            if is_decimal(bytes@) {
                let d = choose|d: int| decimal_at(bytes@, d);
                if d > dot {
                    assert(bytes@.subrange(0, d)[dot as int] == bytes@[dot as int]);
                } else if d < dot {
                    assert(bytes@.subrange(0, dot as int)[d] == bytes@[d]);
                } else if end != n {
                    assert(bytes@.subrange(dot + 1, n as int)[end - dot - 1] == bytes@[end as int]);
                }
            }
        }
        return None;
    }
    proof {
        assert(decimal_at(bytes@, dot as int));
        lemma_decimal_at_unique(bytes@, dot as int, choose|d: int| decimal_at(bytes@, d));
        lemma_pow10_positive((n - dot - 1) as nat);
    }
    let whole: Natural = read_digits(bytes, 0, dot);
    let fraction: Natural = read_digits(bytes, dot + 1, n);
    let scale: Natural = power_of_ten(n - dot - 1);
    let whole_part: Option<Money> = Money::from_naturals(false, whole, Natural::from_u64(1));
    let fraction_part: Option<Money> = Money::from_naturals(false, fraction, scale);
    match (whole_part, fraction_part) {
        (Some(w), Some(f)) => {
            proof {
                lemma_fraction_whole(digits_value(bytes@.subrange(0, dot as int)));
            }
            Some(w.add(&f))
        },
        _ => None,
    }
}

/// Reads a decimal with an optional sign in front: `None` exactly where the
/// bytes are none.
pub fn parse_decimal_bytes(bytes: &[u8]) -> (r: Option<Money>)
    ensures
        match r {
            Some(m) => is_signed_decimal(bytes@) && m@ == signed_value(bytes@),
            None => !is_signed_decimal(bytes@),
        },
{
    let n: usize = bytes.len();
    let signed: bool = n > 0 && (bytes[0] == 45 || bytes[0] == 43);
    let negative: bool = n > 0 && bytes[0] == 45;
    let body: &[u8] = if signed {
        slice_subrange(bytes, 1, n)
    } else {
        bytes
    };
    match parse_unsigned(body) {
        Some(magnitude) => {
            if negative {
                Some(magnitude.neg())
            } else {
                Some(magnitude)
            }
        },
        None => None,
    }
}

/// Reads a decimal with an optional sign in front from text: `None` exactly
/// where the text is none.
pub fn parse_decimal(text: &str) -> (r: Option<Money>)
    ensures
        match r {
            Some(m) => is_signed_decimal(text.spec_bytes()) && m@ == signed_value(
                text.spec_bytes(),
            ),
            None => !is_signed_decimal(text.spec_bytes()),
        },
{
    parse_decimal_bytes(text.as_bytes())
}

/// Reads a cap. An absent cap, and one written as a number below zero, is
/// no cap; a number from zero up is the cap; anything else is a fault.
pub fn parse_cap(text: Option<&str>) -> (r: Result<Option<Money>, Fault>)
    ensures
        match text {
            None => r == Ok::<Option<Money>, Fault>(None),
            Some(written) => match cap_meaning(written.spec_bytes()) {
                None => r == Err::<Option<Money>, Fault>(Fault::MalformedCap),
                Some(None) => r == Ok::<Option<Money>, Fault>(None),
                Some(Some(limit)) => r matches Ok(Some(cap)) && cap@ == limit,
            },
        },
{
    match text {
        None => Ok(None),
        Some(written) => match parse_decimal(written) {
            None => Err(Fault::MalformedCap),
            Some(cap) => {
                if cap.is_negative() {
                    Ok(None)
                } else {
                    Ok(Some(cap))
                }
            },
        },
    }
}

} // verus!
