//! The arithmetic of a single attempt: resolving its target, computing the
//! raw amount it asks for, and settling that amount against the two caps.

use crate::data::{cap_view, views, CartLine, CartLineView, DiscountValue, Target};
use crate::model::{
    base_price, clamp, exceeds, line_of, raw_amount, resolvable, resolves_to, settlement,
};
use crate::money::Money;
use vstd::prelude::*;

verus! {

/// Where a line resolves an identifier, `line_of` names that line.
pub proof fn lemma_line_of_unique(lines: Seq<CartLineView>, id: Seq<char>, i: int)
    requires
        resolves_to(lines, id, i),
    ensures
        resolvable(lines, id),
        line_of(lines, id) == i,
{
    let k = line_of(lines, id);
    assert(resolves_to(lines, id, k));
    assert(lines[k].id == id);
}

/// The position of the one cart line that holds the identifier `id`: `None`
/// where no line holds it, and where more than one does.
pub fn find_line(lines: &Vec<CartLine>, id: &String) -> (r: Option<usize>)
    ensures
        match r {
            Some(i) => resolves_to(views(lines@), id@, i as int) && line_of(views(lines@), id@)
                == i,
            None => !resolvable(views(lines@), id@),
        },
{
    let ghost model = views(lines@);
    let mut found: Option<usize> = None;
    let mut i: usize = 0;
    while i < lines.len()
        invariant
            i <= lines.len(),
            model == views(lines@),
            match found {
                Some(k) => k < i && model[k as int].id == id@ && forall|j: int|
                    0 <= j < i && (#[trigger] model[j]).id == id@ ==> j == k,
                None => forall|j: int| 0 <= j < i ==> (#[trigger] model[j]).id != id@,
            },
        decreases lines.len() - i,
    {
        if lines[i].id == *id {
            assert(model[i as int].id == id@);
            match found {
                Some(k) => {
                    proof {
                        if resolvable(model, id@) {
                            let w = choose|w: int| resolves_to(model, id@, w);
                            assert(model[k as int].id == id@);
                            assert(model[i as int].id == id@);
                            assert(k as int == w);
                            assert(i as int == w);
                        }
                    }
                    return None;
                },
                None => {
                    found = Some(i);
                },
            }
        }
        i += 1;
    }
    match found {
        Some(k) => {
            proof {
                lemma_line_of_unique(model, id@, k as int);
            }
            Some(k)
        },
        None => {
            proof {
                if resolvable(model, id@) {
                    let w = choose|w: int| resolves_to(model, id@, w);
                    assert(model[w].id == id@);
                }
            }
            None
        },
    }
}

/// A target whose cart line has been found.
pub struct ResolvedTarget {
    /// The position of the target's line in the cart.
    pub line: usize,
    /// The price of what the target covers.
    pub base: Money,
    /// The quantity that the target consumes.
    pub quantity: i64,
}

/// Finds the cart line of a target and prices what the target covers: `None`
/// exactly when the cart does not hold the target's line exactly once.
pub fn resolve_target(lines: &Vec<CartLine>, target: &Target) -> (r: Option<ResolvedTarget>)
    ensures
        match r {
            Some(found) => {
                &&& resolvable(views(lines@), target@.cart_line_id)
                &&& found.line < lines.len()
                &&& found.line == line_of(views(lines@), target@.cart_line_id)
                &&& found.base@ == base_price(views(lines@), target@)
                &&& found.quantity == target.quantity
            },
            None => !resolvable(views(lines@), target@.cart_line_id),
        },
{
    match find_line(lines, &target.cart_line_id) {
        Some(i) => {
            let base: Money = lines[i].unit_price.times(target.quantity);
            Some(ResolvedTarget { line: i, base, quantity: target.quantity })
        },
        None => None,
    }
}

/// The amount that a proposal asks for on one target, before any cap. `base`
/// is the target's base price, `total` the proposal's total price, `quantity`
/// the quantity the target consumes. `None` exactly when `total` is zero, for
/// then the target has no share of it.
pub fn raw_amount_of(value: &DiscountValue, base: &Money, total: &Money, quantity: i64) -> (r:
    Option<Money>)
    ensures
        match r {
            Some(raw) => total@ != 0real && raw@ == raw_amount(
                value@,
                base@,
                total@,
                quantity as int,
            ),
            None => total@ == 0real,
        },
{
    match base.checked_div(total) {
        None => None,
        Some(share) => {
            match value {
                DiscountValue::FixedAmount { amount, applies_to_each_item } => {
                    if *applies_to_each_item {
                        Some(amount.times(quantity))
                    } else {
                        Some(amount.mul(&share))
                    }
                },
                DiscountValue::Percentage { value } => {
                    let hundred: Money = Money::from_u64(100);
                    match value.checked_div(&hundred) {
                        Some(rate) => Some(rate.mul(total).mul(&share)),
                        None => None,
                    }
                },
            }
        },
    }
}

/// What an attempt comes to once both caps have been applied.
pub struct Settled {
    /// What is left of the raw amount.
    pub amount: Money,
    /// Whether the discount's cap cut the amount.
    pub hit_discount_cap: bool,
    /// Whether the cart's cap cut the amount.
    pub hit_cart_cap: bool,
}

/// Holds an amount against a cap, given what has been granted under that cap
/// so far: the amount, cut to what the cap leaves where it would go past it,
/// and whether it was cut. A cap that is absent or below zero never cuts.
pub fn clamp_to(cap: &Option<Money>, running: &Money, amount: &Money) -> (r: (Money, bool))
    ensures
        r.0@ == clamp(cap_view(*cap), running@, amount@),
        r.1 == exceeds(cap_view(*cap), running@, amount@),
{
    match cap {
        Some(limit) => {
            if !limit.is_negative() && limit.lt(&running.add(amount)) {
                (limit.sub(running), true)
            } else {
                (amount.duplicate(), false)
            }
        },
        None => (amount.duplicate(), false),
    }
}

/// Settles a raw amount against the discount's cap and then the cart's cap,
/// given what each has been granted so far. The two flags say which caps
/// cut; the amount is what is left.
pub fn settle_amount(
    raw: &Money,
    discount_cap: &Option<Money>,
    discount_total: &Money,
    cart_cap: &Option<Money>,
    cart_total: &Money,
) -> (r: Settled)
    ensures
        ({
            let s = settlement(
                raw@,
                cap_view(*discount_cap),
                discount_total@,
                cap_view(*cart_cap),
                cart_total@,
            );
            &&& r.hit_discount_cap == s.hit_discount_cap
            &&& r.hit_cart_cap == s.hit_cart_cap
            &&& r.amount@ == s.amount
        }),
{
    let (capped, hit_discount_cap) = clamp_to(discount_cap, discount_total, raw);
    let (amount, hit_cart_cap) = clamp_to(cart_cap, cart_total, &capped);
    Settled { amount, hit_discount_cap, hit_cart_cap }
}

} // verus!
