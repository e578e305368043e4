//! What holds of every allocation, proved of the model that `allocate` is
//! held to.

use crate::data::{
    views, Allocation, CapReason, Cart, CartLineView, CartView, Discount, DiscountProposalView,
    DiscountValueView, DiscountView, Fault, LineAllocationView, LineResultView,
};
use crate::engine::allocate_outcome;
use crate::invocation::{run_outcome, Request};
use crate::model::{
    all_resolvable, allocated, allocated_to, allocation, attempts, attempts_upto,
    attempts_within, base_price, bucket, discount_attempts, discount_resolvable,
    emitted, empty_ledger, lemma_allocated_push, lemma_discount_attempts_within, limit_of,
    line_of, notices_of,
    proposal_attempts, proposal_resolvable, raw_amount, recorded, requested, resolvable,
    raised, resolves_to, settle, settle_from, settlement, step, target_attempt, targets_price,
    total_price, Attempt, Flag, Grant, Ledger,
};
use vstd::prelude::*;

verus! {

// ---------------------------------------------------------------------------
// The caps hold
// ---------------------------------------------------------------------------

/// A settled amount is never more than what was asked for, nor more than
/// what either cap leaves. It is what was asked for where no cap cuts it, and
/// where a cap has the last cut it fills that cap exactly.
pub proof fn lemma_settlement_within(
    raw: real,
    discount_cap: Option<real>,
    discount_total: real,
    cart_cap: Option<real>,
    cart_total: real,
)
    ensures
        ({
            let s = settlement(raw, discount_cap, discount_total, cart_cap, cart_total);
            &&& s.amount <= raw
            &&& limit_of(discount_cap) matches Some(limit) ==> discount_total + s.amount <= limit
            &&& limit_of(cart_cap) matches Some(limit) ==> cart_total + s.amount <= limit
            &&& !s.hit_discount_cap && !s.hit_cart_cap ==> s.amount == raw
            &&& s.hit_discount_cap && !s.hit_cart_cap ==> (limit_of(discount_cap) matches Some(
                limit,
            ) && discount_total + s.amount == limit)
            &&& s.hit_cart_cap ==> (limit_of(cart_cap) matches Some(limit) && cart_total + s.amount
                == limit)
        }),
{
}

proof fn lemma_settle_within_discount_cap(
    ledger: Ledger,
    pending: Seq<Attempt>,
    discounts: Seq<DiscountView>,
    cart_cap: Option<real>,
    d: int,
    limit: real,
)
    requires
        limit_of(discounts[d].cap) == Some(limit),
        allocated_to(ledger.grants, d) <= limit,
    ensures
        allocated_to(settle_from(ledger, pending, discounts, cart_cap).grants, d) <= limit,
    decreases pending.len(),
{
    if pending.len() > 0 {
        lemma_settle_within_discount_cap(ledger, pending.drop_last(), discounts, cart_cap, d, limit);
        let before = settle_from(ledger, pending.drop_last(), discounts, cart_cap);
        let attempt = pending.last();
        let after = step(before, attempt, discounts, cart_cap);
        lemma_settlement_within(
            attempt.raw,
            discounts[attempt.discount].cap,
            allocated_to(before.grants, attempt.discount),
            cart_cap,
            allocated(before.grants),
        );
        if after.grants != before.grants {
            lemma_allocated_push(before.grants, after.grants.last(), d);
        }
    }
}

proof fn lemma_settle_within_cart_cap(
    ledger: Ledger,
    pending: Seq<Attempt>,
    discounts: Seq<DiscountView>,
    cart_cap: Option<real>,
    limit: real,
)
    requires
        limit_of(cart_cap) == Some(limit),
        allocated(ledger.grants) <= limit,
    ensures
        allocated(settle_from(ledger, pending, discounts, cart_cap).grants) <= limit,
    decreases pending.len(),
{
    if pending.len() > 0 {
        lemma_settle_within_cart_cap(ledger, pending.drop_last(), discounts, cart_cap, limit);
        let before = settle_from(ledger, pending.drop_last(), discounts, cart_cap);
        let attempt = pending.last();
        let after = step(before, attempt, discounts, cart_cap);
        lemma_settlement_within(
            attempt.raw,
            discounts[attempt.discount].cap,
            allocated_to(before.grants, attempt.discount),
            cart_cap,
            allocated(before.grants),
        );
        if after.grants != before.grants {
            lemma_allocated_push(before.grants, after.grants.last(), 0);
        }
    }
}

/// The amounts allocated on behalf of a discount never add up to more than
/// the limit that its cap sets.
pub proof fn lemma_discount_cap_holds(cart: CartView, discounts: Seq<DiscountView>, d: int)
    requires
        0 <= d < discounts.len(),
    ensures
        limit_of(discounts[d].cap) matches Some(limit) ==> allocated_to(
            settle(cart, discounts).grants,
            d,
        ) <= limit,
{
    match limit_of(discounts[d].cap) {
        Some(limit) => {
            lemma_settle_within_discount_cap(
                empty_ledger(),
                attempts(cart.lines, discounts),
                discounts,
                cart.cap,
                d,
                limit,
            );
        },
        None => {},
    }
}

/// The amounts allocated on behalf of all discounts together never add up to
/// more than the limit that the cart's cap sets.
pub proof fn lemma_cart_cap_holds(cart: CartView, discounts: Seq<DiscountView>)
    ensures
        limit_of(cart.cap) matches Some(limit) ==> allocated(settle(cart, discounts).grants)
            <= limit,
{
    match limit_of(cart.cap) {
        Some(limit) => {
            lemma_settle_within_cart_cap(
                empty_ledger(),
                attempts(cart.lines, discounts),
                discounts,
                cart.cap,
                limit,
            );
        },
        None => {},
    }
}

// ---------------------------------------------------------------------------
// A cap that has cut is filled exactly
// ---------------------------------------------------------------------------

/// Whether the discount's cap has cut an attempt of the discount at `d`.
pub open spec fn discount_cap_hit(flags: Seq<Flag>, d: int) -> bool {
    flags.contains(Flag { discount: d, reason: CapReason::DiscountCap })
}

/// Whether the cart's cap has cut an attempt of the discount at `d`.
pub open spec fn cart_cap_hit_by(flags: Seq<Flag>, d: int) -> bool {
    flags.contains(Flag { discount: d, reason: CapReason::CartCap })
}

/// Whether the cart's cap has cut any attempt.
pub open spec fn cart_cap_hit(flags: Seq<Flag>) -> bool {
    exists|k: int| 0 <= k < flags.len() && (#[trigger] flags[k]).reason == CapReason::CartCap
}

proof fn lemma_flags_after_step(
    before: Ledger,
    attempt: Attempt,
    discounts: Seq<DiscountView>,
    cart_cap: Option<real>,
    d: int,
)
    ensures
        ({
            let after = step(before, attempt, discounts, cart_cap);
            let outcome = settlement(
                attempt.raw,
                discounts[attempt.discount].cap,
                allocated_to(before.grants, attempt.discount),
                cart_cap,
                allocated(before.grants),
            );
            &&& discount_cap_hit(after.flags, d) <==> discount_cap_hit(before.flags, d) || (
            attempt.discount == d && outcome.hit_discount_cap)
            &&& cart_cap_hit_by(after.flags, d) <==> cart_cap_hit_by(before.flags, d) || (
            attempt.discount == d && outcome.hit_cart_cap)
            &&& cart_cap_hit(after.flags) <==> cart_cap_hit(before.flags) || outcome.hit_cart_cap
        }),
{
    let after = step(before, attempt, discounts, cart_cap);
    let outcome = settlement(
        attempt.raw,
        discounts[attempt.discount].cap,
        allocated_to(before.grants, attempt.discount),
        cart_cap,
        allocated(before.grants),
    );
    let extra = raised(attempt.discount, outcome);
    let by_discount = Flag { discount: d, reason: CapReason::DiscountCap };
    let by_cart = Flag { discount: d, reason: CapReason::CartCap };
    assert(after.flags == before.flags + extra);
    assert forall|k: int| 0 <= k < before.flags.len() implies after.flags[k]
        == before.flags[k] by {}
    assert forall|k: int| 0 <= k < extra.len() implies after.flags[before.flags.len() + k]
        == extra[k] by {}
    if discount_cap_hit(before.flags, d) {
        let k = choose|k: int| 0 <= k < before.flags.len() && before.flags[k] == by_discount;
        assert(after.flags[k] == by_discount);
    }
    if cart_cap_hit_by(before.flags, d) {
        let k = choose|k: int| 0 <= k < before.flags.len() && before.flags[k] == by_cart;
        assert(after.flags[k] == by_cart);
    }
    if cart_cap_hit(before.flags) {
        let k = choose|k: int|
            0 <= k < before.flags.len() && (#[trigger] before.flags[k]).reason
                == CapReason::CartCap;
        assert(after.flags[k].reason == CapReason::CartCap);
    }
    if attempt.discount == d && outcome.hit_discount_cap {
        assert(extra[0] == by_discount);
        assert(after.flags[before.flags.len() as int] == by_discount);
    }
    if outcome.hit_cart_cap {
        let at = extra.len() - 1;
        assert(extra[at].reason == CapReason::CartCap);
        assert(after.flags[before.flags.len() + at] == extra[at]);
        if attempt.discount == d {
            assert(extra[at] == by_cart);
        }
    }
    if discount_cap_hit(after.flags, d) && !discount_cap_hit(before.flags, d) {
        let k = choose|k: int| 0 <= k < after.flags.len() && after.flags[k] == by_discount;
        assert(k >= before.flags.len());
        assert(after.flags[k] == extra[k - before.flags.len()]);
    }
    if cart_cap_hit_by(after.flags, d) && !cart_cap_hit_by(before.flags, d) {
        let k = choose|k: int| 0 <= k < after.flags.len() && after.flags[k] == by_cart;
        assert(k >= before.flags.len());
        assert(after.flags[k] == extra[k - before.flags.len()]);
    }
    if cart_cap_hit(after.flags) && !cart_cap_hit(before.flags) {
        let k = choose|k: int|
            0 <= k < after.flags.len() && (#[trigger] after.flags[k]).reason
                == CapReason::CartCap;
        if k < before.flags.len() {
            assert(before.flags[k].reason == CapReason::CartCap);
        }
        assert(after.flags[k] == extra[k - before.flags.len()]);
    }
}

/// The discount at `d` stands within its limit, and exactly at it once its
/// cap has had the last cut of one of its attempts.
spec fn discount_cap_filled(ledger: Ledger, d: int, limit: real) -> bool {
    &&& allocated_to(ledger.grants, d) <= limit
    &&& discount_cap_hit(ledger.flags, d) && !cart_cap_hit_by(ledger.flags, d) ==> allocated_to(
        ledger.grants,
        d,
    ) == limit
}

proof fn lemma_settle_fills_discount_cap(
    ledger: Ledger,
    pending: Seq<Attempt>,
    discounts: Seq<DiscountView>,
    cart_cap: Option<real>,
    d: int,
    limit: real,
)
    requires
        limit_of(discounts[d].cap) == Some(limit),
        discount_cap_filled(ledger, d, limit),
    ensures
        discount_cap_filled(settle_from(ledger, pending, discounts, cart_cap), d, limit),
    decreases pending.len(),
{
    if pending.len() > 0 {
        lemma_settle_fills_discount_cap(
            ledger,
            pending.drop_last(),
            discounts,
            cart_cap,
            d,
            limit,
        );
        let before = settle_from(ledger, pending.drop_last(), discounts, cart_cap);
        let attempt = pending.last();
        let after = step(before, attempt, discounts, cart_cap);
        lemma_flags_after_step(before, attempt, discounts, cart_cap, d);
        lemma_settlement_within(
            attempt.raw,
            discounts[attempt.discount].cap,
            allocated_to(before.grants, attempt.discount),
            cart_cap,
            allocated(before.grants),
        );
        if after.grants != before.grants {
            lemma_allocated_push(before.grants, after.grants.last(), d);
        }
    }
}

/// The cart stands within its limit, and exactly at it once its cap has cut
/// an attempt.
spec fn cart_cap_filled(ledger: Ledger, limit: real) -> bool {
    &&& allocated(ledger.grants) <= limit
    &&& cart_cap_hit(ledger.flags) ==> allocated(ledger.grants) == limit
}

proof fn lemma_settle_fills_cart_cap(
    ledger: Ledger,
    pending: Seq<Attempt>,
    discounts: Seq<DiscountView>,
    cart_cap: Option<real>,
    limit: real,
)
    requires
        limit_of(cart_cap) == Some(limit),
        cart_cap_filled(ledger, limit),
    ensures
        cart_cap_filled(settle_from(ledger, pending, discounts, cart_cap), limit),
    decreases pending.len(),
{
    if pending.len() > 0 {
        lemma_settle_fills_cart_cap(ledger, pending.drop_last(), discounts, cart_cap, limit);
        let before = settle_from(ledger, pending.drop_last(), discounts, cart_cap);
        let attempt = pending.last();
        let after = step(before, attempt, discounts, cart_cap);
        lemma_flags_after_step(before, attempt, discounts, cart_cap, attempt.discount);
        lemma_settlement_within(
            attempt.raw,
            discounts[attempt.discount].cap,
            allocated_to(before.grants, attempt.discount),
            cart_cap,
            allocated(before.grants),
        );
        if after.grants != before.grants {
            lemma_allocated_push(before.grants, after.grants.last(), 0);
        }
    }
}

/// Where a discount's cap has cut one of its attempts and the cart's cap has
/// cut none of them, what was allocated on behalf of the discount adds up to
/// exactly the limit of its cap.
pub proof fn lemma_discount_cap_filled(cart: CartView, discounts: Seq<DiscountView>, d: int)
    requires
        0 <= d < discounts.len(),
        discount_cap_hit(settle(cart, discounts).flags, d),
        !cart_cap_hit_by(settle(cart, discounts).flags, d),
    ensures
        limit_of(discounts[d].cap) == Some(allocated_to(settle(cart, discounts).grants, d)),
{
    match limit_of(discounts[d].cap) {
        Some(limit) => {
            lemma_settle_fills_discount_cap(
                empty_ledger(),
                attempts(cart.lines, discounts),
                discounts,
                cart.cap,
                d,
                limit,
            );
        },
        None => {
            lemma_settle_unflagged(
                empty_ledger(),
                attempts(cart.lines, discounts),
                discounts,
                cart.cap,
                d,
            );
        },
    }
}

/// Where the cart's cap has cut any attempt, what was allocated adds up to
/// exactly the limit of the cart's cap.
pub proof fn lemma_cart_cap_filled(cart: CartView, discounts: Seq<DiscountView>)
    requires
        cart_cap_hit(settle(cart, discounts).flags),
    ensures
        limit_of(cart.cap) == Some(allocated(settle(cart, discounts).grants)),
{
    match limit_of(cart.cap) {
        Some(limit) => {
            lemma_settle_fills_cart_cap(
                empty_ledger(),
                attempts(cart.lines, discounts),
                discounts,
                cart.cap,
                limit,
            );
        },
        None => {
            lemma_settle_cart_unflagged(
                empty_ledger(),
                attempts(cart.lines, discounts),
                discounts,
                cart.cap,
            );
        },
    }
}

proof fn lemma_settle_unflagged(
    ledger: Ledger,
    pending: Seq<Attempt>,
    discounts: Seq<DiscountView>,
    cart_cap: Option<real>,
    d: int,
)
    requires
        limit_of(discounts[d].cap) is None,
        !discount_cap_hit(ledger.flags, d),
    ensures
        !discount_cap_hit(settle_from(ledger, pending, discounts, cart_cap).flags, d),
    decreases pending.len(),
{
    if pending.len() > 0 {
        lemma_settle_unflagged(ledger, pending.drop_last(), discounts, cart_cap, d);
        let before = settle_from(ledger, pending.drop_last(), discounts, cart_cap);
        lemma_flags_after_step(before, pending.last(), discounts, cart_cap, d);
    }
}

proof fn lemma_settle_cart_unflagged(
    ledger: Ledger,
    pending: Seq<Attempt>,
    discounts: Seq<DiscountView>,
    cart_cap: Option<real>,
)
    requires
        limit_of(cart_cap) is None,
        !cart_cap_hit(ledger.flags),
    ensures
        !cart_cap_hit(settle_from(ledger, pending, discounts, cart_cap).flags),
    decreases pending.len(),
{
    if pending.len() > 0 {
        lemma_settle_cart_unflagged(ledger, pending.drop_last(), discounts, cart_cap);
        let before = settle_from(ledger, pending.drop_last(), discounts, cart_cap);
        lemma_flags_after_step(before, pending.last(), discounts, cart_cap, 0);
    }
}

// ---------------------------------------------------------------------------
// Only positive amounts are recorded
// ---------------------------------------------------------------------------

/// Every grant of the ledger has an amount above zero.
pub open spec fn grants_positive(grants: Seq<Grant>) -> bool {
    forall|k: int| 0 <= k < grants.len() ==> (#[trigger] grants[k]).amount > 0real
}

proof fn lemma_settle_positive(
    ledger: Ledger,
    pending: Seq<Attempt>,
    discounts: Seq<DiscountView>,
    cart_cap: Option<real>,
)
    requires
        grants_positive(ledger.grants),
    ensures
        grants_positive(settle_from(ledger, pending, discounts, cart_cap).grants),
    decreases pending.len(),
{
    if pending.len() > 0 {
        lemma_settle_positive(ledger, pending.drop_last(), discounts, cart_cap);
    }
}

/// Every allocation of the sequence has an amount above zero.
pub open spec fn allocations_positive(allocations: Seq<LineAllocationView>) -> bool {
    forall|k: int| 0 <= k < allocations.len() ==> (#[trigger] allocations[k]).amount > 0real
}

proof fn lemma_bucket_positive(grants: Seq<Grant>, line: int)
    requires
        grants_positive(grants),
    ensures
        allocations_positive(bucket(grants, line)),
    decreases grants.len(),
{
    if grants.len() > 0 {
        let before = grants.drop_last();
        assert forall|k: int| 0 <= k < before.len() implies (#[trigger] before[k]).amount
            > 0real by {
            assert(before[k] == grants[k]);
        }
        lemma_bucket_positive(before, line);
        assert(grants[grants.len() - 1].amount > 0real);
    }
}

/// The sum of the amounts of a sequence of allocations.
pub open spec fn received(allocations: Seq<LineAllocationView>) -> real
    decreases allocations.len(),
{
    if allocations.len() == 0 {
        0real
    } else {
        received(allocations.drop_last()) + allocations.last().amount
    }
}

proof fn lemma_received_positive(allocations: Seq<LineAllocationView>)
    requires
        allocations_positive(allocations),
    ensures
        received(allocations) >= 0real,
        allocations.len() > 0 ==> received(allocations) > 0real,
    decreases allocations.len(),
{
    if allocations.len() > 0 {
        let before = allocations.drop_last();
        assert forall|k: int| 0 <= k < before.len() implies (#[trigger] before[k]).amount
            > 0real by {
            assert(before[k] == allocations[k]);
        }
        lemma_received_positive(before);
        assert(allocations[allocations.len() - 1].amount > 0real);
    }
}

/// Every result holds at least one allocation, and only allocations above
/// zero.
pub open spec fn results_substantial(results: Seq<LineResultView>) -> bool {
    forall|i: int|
        0 <= i < results.len() ==> {
            &&& (#[trigger] results[i]).allocations.len() > 0
            &&& allocations_positive(results[i].allocations)
            &&& received(results[i].allocations) > 0real
        }
}

proof fn lemma_emitted_substantial(lines: Seq<CartLineView>, grants: Seq<Grant>, n: nat)
    requires
        grants_positive(grants),
    ensures
        results_substantial(emitted(lines, grants, n)),
    decreases n,
{
    if n > 0 {
        lemma_emitted_substantial(lines, grants, (n - 1) as nat);
        lemma_bucket_positive(grants, n - 1);
        lemma_received_positive(bucket(grants, n - 1));
    }
}

/// Every recorded allocation has an amount strictly above zero.
pub proof fn lemma_allocations_positive(cart: CartView, discounts: Seq<DiscountView>)
    ensures
        grants_positive(settle(cart, discounts).grants),
        forall|i: int|
            0 <= i < allocation(cart, discounts).lines.len() ==> allocations_positive(
                (#[trigger] allocation(cart, discounts).lines[i]).allocations,
            ),
{
    lemma_settle_positive(empty_ledger(), attempts(cart.lines, discounts), discounts, cart.cap);
    lemma_emitted_substantial(cart.lines, settle(cart, discounts).grants, cart.lines.len());
}

/// A cart line that received nothing is not among the results: every result
/// holds at least one allocation, and what it holds adds up to more than
/// zero.
pub proof fn lemma_empty_lines_omitted(cart: CartView, discounts: Seq<DiscountView>)
    ensures
        forall|i: int|
            0 <= i < allocation(cart, discounts).lines.len() ==> {
                &&& (#[trigger] allocation(cart, discounts).lines[i]).allocations.len() > 0
                &&& received(allocation(cart, discounts).lines[i].allocations) > 0real
            },
{
    lemma_settle_positive(empty_ledger(), attempts(cart.lines, discounts), discounts, cart.cap);
    lemma_emitted_substantial(cart.lines, settle(cart, discounts).grants, cart.lines.len());
}

// ---------------------------------------------------------------------------
// The outcome is a function of the input
// ---------------------------------------------------------------------------

/// Two runs on inputs with the same view end alike: both fail with the same
/// fault, or both give the same lines and notices, in the same order.
pub proof fn lemma_outcome_determined(
    cart: Cart,
    discounts: Seq<Discount>,
    first: Result<Allocation, Fault>,
    other_cart: Cart,
    other_discounts: Seq<Discount>,
    second: Result<Allocation, Fault>,
)
    requires
        cart@ == other_cart@,
        views(discounts) == views(other_discounts),
        allocate_outcome(cart, discounts, first),
        allocate_outcome(other_cart, other_discounts, second),
    ensures
        match (first, second) {
            (Ok(a), Ok(b)) => a@ == b@,
            (Err(e), Err(f)) => e == f,
            _ => false,
        },
{
}

// ---------------------------------------------------------------------------
// Where every target can be resolved, every grant is on a line of the cart
// ---------------------------------------------------------------------------

/// Every attempt is on one of the first `n` cart lines.
pub open spec fn attempts_on_lines(pending: Seq<Attempt>, n: int) -> bool {
    forall|k: int| 0 <= k < pending.len() ==> 0 <= (#[trigger] pending[k]).line < n
}

proof fn lemma_target_line(lines: Seq<CartLineView>, proposal: DiscountProposalView, t: int)
    requires
        proposal_resolvable(lines, proposal),
        0 <= t < proposal.targets.len(),
    ensures
        0 <= line_of(lines, proposal.targets[t].cart_line_id) < lines.len(),
{
    let target = proposal.targets[t];
    assert(resolvable(lines, target.cart_line_id));
    assert(resolves_to(lines, target.cart_line_id, line_of(lines, target.cart_line_id)));
}

proof fn lemma_proposal_attempts_on_lines(
    lines: Seq<CartLineView>,
    d: int,
    proposal: DiscountProposalView,
)
    requires
        proposal_resolvable(lines, proposal),
    ensures
        attempts_on_lines(proposal_attempts(lines, d, proposal), lines.len() as int),
{
    let planned = proposal_attempts(lines, d, proposal);
    assert forall|k: int| 0 <= k < planned.len() implies 0 <= (#[trigger] planned[k]).line
        < lines.len() by {
        assert(planned[k] == target_attempt(lines, d, proposal, k));
        lemma_target_line(lines, proposal, k);
    }
}

proof fn lemma_discount_attempts_on_lines(
    lines: Seq<CartLineView>,
    d: int,
    discount: DiscountView,
    p: nat,
)
    requires
        discount_resolvable(lines, discount),
        p <= discount.proposals.len(),
    ensures
        attempts_on_lines(discount_attempts(lines, d, discount, p), lines.len() as int),
    decreases p,
{
    if p > 0 {
        lemma_discount_attempts_on_lines(lines, d, discount, (p - 1) as nat);
        lemma_proposal_attempts_on_lines(lines, d, discount.proposals[p - 1]);
    }
}

proof fn lemma_attempts_on_lines(lines: Seq<CartLineView>, discounts: Seq<DiscountView>, d: nat)
    requires
        all_resolvable(lines, discounts),
        d <= discounts.len(),
    ensures
        attempts_on_lines(attempts_upto(lines, discounts, d), lines.len() as int),
        attempts_within(attempts_upto(lines, discounts, d), 0, d as int),
    decreases d,
{
    if d > 0 {
        lemma_attempts_on_lines(lines, discounts, (d - 1) as nat);
        lemma_discount_attempts_on_lines(
            lines,
            d - 1,
            discounts[d - 1],
            discounts[d - 1].proposals.len(),
        );
        lemma_discount_attempts_within(
            lines,
            d - 1,
            discounts[d - 1],
            discounts[d - 1].proposals.len(),
        );
    }
}

// ---------------------------------------------------------------------------
// Without caps, everything asked for is given
// ---------------------------------------------------------------------------

/// No unit price of the cart is below zero.
pub open spec fn prices_valid(lines: Seq<CartLineView>) -> bool {
    forall|i: int| 0 <= i < lines.len() ==> (#[trigger] lines[i]).unit_price >= 0real
}

/// The amount or percentage of a value is not below zero.
pub open spec fn value_valid(value: DiscountValueView) -> bool {
    match value {
        DiscountValueView::FixedAmount { amount, .. } => amount >= 0real,
        DiscountValueView::Percentage { value } => value >= 0real,
    }
}

/// Neither the value of the proposal nor the quantity of any of its targets
/// is below zero.
pub open spec fn proposal_valid(proposal: DiscountProposalView) -> bool {
    &&& value_valid(proposal.value)
    &&& forall|t: int| 0 <= t < proposal.targets.len() ==> (#[trigger] proposal.targets[t]).quantity >= 0
}

/// Every proposal of the discount is valid.
pub open spec fn discount_valid(discount: DiscountView) -> bool {
    forall|p: int| 0 <= p < discount.proposals.len() ==> proposal_valid(#[trigger] discount.proposals[p])
}

/// Every proposal of every discount is valid.
pub open spec fn discounts_valid(discounts: Seq<DiscountView>) -> bool {
    forall|d: int| 0 <= d < discounts.len() ==> discount_valid(#[trigger] discounts[d])
}

/// Every attempt asks for an amount that is not below zero.
pub open spec fn attempts_nonnegative(pending: Seq<Attempt>) -> bool {
    forall|k: int| 0 <= k < pending.len() ==> (#[trigger] pending[k]).raw >= 0real
}

/// No discount has a cap that sets a limit.
pub open spec fn uncapped(discounts: Seq<DiscountView>) -> bool {
    forall|d: int| 0 <= d < discounts.len() ==> limit_of((#[trigger] discounts[d]).cap) is None
}

proof fn lemma_base_price_nonnegative(
    lines: Seq<CartLineView>,
    proposal: DiscountProposalView,
    t: int,
)
    requires
        prices_valid(lines),
        proposal_valid(proposal),
        proposal_resolvable(lines, proposal),
        0 <= t < proposal.targets.len(),
    ensures
        base_price(lines, proposal.targets[t]) >= 0real,
{
    let target = proposal.targets[t];
    lemma_target_line(lines, proposal, t);
    let price = lines[line_of(lines, target.cart_line_id)].unit_price;
    let count = target.quantity as real;
    assert(price * count >= 0real) by (nonlinear_arith)
        requires
            price >= 0real,
            count >= 0real,
    ;
}

proof fn lemma_targets_price_nonnegative(
    lines: Seq<CartLineView>,
    proposal: DiscountProposalView,
    k: nat,
)
    requires
        prices_valid(lines),
        proposal_valid(proposal),
        proposal_resolvable(lines, proposal),
        k <= proposal.targets.len(),
    ensures
        targets_price(lines, proposal.targets, k) >= 0real,
    decreases k,
{
    if k > 0 {
        lemma_targets_price_nonnegative(lines, proposal, (k - 1) as nat);
        lemma_base_price_nonnegative(lines, proposal, k - 1);
    }
}

/// A raw amount is not below zero where the value, the quantity and the
/// base price are not, and the total price is above zero.
pub proof fn lemma_raw_amount_nonnegative(
    value: DiscountValueView,
    base: real,
    total: real,
    quantity: int,
)
    requires
        value_valid(value),
        quantity >= 0,
        base >= 0real,
        total > 0real,
    ensures
        raw_amount(value, base, total, quantity) >= 0real,
{
    let count = quantity as real;
    match value {
        DiscountValueView::FixedAmount { amount, applies_to_each_item } => {
            assert(amount * count >= 0real) by (nonlinear_arith)
                requires
                    amount >= 0real,
                    count >= 0real,
            ;
            assert(amount * (base / total) >= 0real) by (nonlinear_arith)
                requires
                    amount >= 0real,
                    base >= 0real,
                    total > 0real,
            ;
        },
        DiscountValueView::Percentage { value } => {
            assert(value / 100real * total * (base / total) >= 0real) by (nonlinear_arith)
                requires
                    value >= 0real,
                    base >= 0real,
                    total > 0real,
            ;
        },
    }
}

/// A percentage asks on each target for that percentage of the target's own
/// base price.
pub proof fn lemma_percentage_of_base(value: real, base: real, total: real, quantity: int)
    requires
        total != 0real,
    ensures
        raw_amount(DiscountValueView::Percentage { value }, base, total, quantity) == value
            / 100real * base,
{
    assert(value / 100real * total * (base / total) == value / 100real * base)
        by (nonlinear_arith)
        requires
            total != 0real,
    ;
}

proof fn lemma_proposal_attempts_nonnegative(
    lines: Seq<CartLineView>,
    d: int,
    proposal: DiscountProposalView,
)
    requires
        prices_valid(lines),
        proposal_valid(proposal),
        proposal_resolvable(lines, proposal),
    ensures
        attempts_nonnegative(proposal_attempts(lines, d, proposal)),
{
    let planned = proposal_attempts(lines, d, proposal);
    let total = total_price(lines, proposal);
    lemma_targets_price_nonnegative(lines, proposal, proposal.targets.len());
    assert forall|k: int| 0 <= k < planned.len() implies (#[trigger] planned[k]).raw >= 0real by {
        assert(planned[k] == target_attempt(lines, d, proposal, k));
        lemma_base_price_nonnegative(lines, proposal, k);
        lemma_raw_amount_nonnegative(
            proposal.value,
            base_price(lines, proposal.targets[k]),
            total,
            proposal.targets[k].quantity,
        );
    }
}

proof fn lemma_discount_attempts_nonnegative(
    lines: Seq<CartLineView>,
    d: int,
    discount: DiscountView,
    p: nat,
)
    requires
        prices_valid(lines),
        discount_valid(discount),
        discount_resolvable(lines, discount),
        p <= discount.proposals.len(),
    ensures
        attempts_nonnegative(discount_attempts(lines, d, discount, p)),
    decreases p,
{
    if p > 0 {
        lemma_discount_attempts_nonnegative(lines, d, discount, (p - 1) as nat);
        lemma_proposal_attempts_nonnegative(lines, d, discount.proposals[p - 1]);
    }
}

proof fn lemma_attempts_nonnegative(
    lines: Seq<CartLineView>,
    discounts: Seq<DiscountView>,
    d: nat,
)
    requires
        prices_valid(lines),
        discounts_valid(discounts),
        all_resolvable(lines, discounts),
        d <= discounts.len(),
    ensures
        attempts_nonnegative(attempts_upto(lines, discounts, d)),
    decreases d,
{
    if d > 0 {
        lemma_attempts_nonnegative(lines, discounts, (d - 1) as nat);
        lemma_discount_attempts_nonnegative(
            lines,
            d - 1,
            discounts[d - 1],
            discounts[d - 1].proposals.len(),
        );
    }
}

proof fn lemma_settle_uncapped(
    ledger: Ledger,
    pending: Seq<Attempt>,
    discounts: Seq<DiscountView>,
    cart_cap: Option<real>,
)
    requires
        limit_of(cart_cap) is None,
        uncapped(discounts),
        attempts_within(pending, 0, discounts.len() as int),
        attempts_nonnegative(pending),
    ensures
        settle_from(ledger, pending, discounts, cart_cap).flags == ledger.flags,
        allocated(settle_from(ledger, pending, discounts, cart_cap).grants) == allocated(
            ledger.grants,
        ) + requested(pending),
    decreases pending.len(),
{
    if pending.len() > 0 {
        let earlier = pending.drop_last();
        assert forall|k: int| 0 <= k < earlier.len() implies (#[trigger] earlier[k]).raw >= 0real
            && 0 <= earlier[k].discount < discounts.len() by {
            assert(earlier[k] == pending[k]);
        }
        lemma_settle_uncapped(ledger, earlier, discounts, cart_cap);
        let before = settle_from(ledger, earlier, discounts, cart_cap);
        let attempt = pending[pending.len() - 1];
        assert(attempt.raw >= 0real && 0 <= attempt.discount < discounts.len());
        assert(limit_of(discounts[attempt.discount].cap) is None);
        let after = step(before, attempt, discounts, cart_cap);
        assert(after.flags =~= before.flags);
        if attempt.raw > 0real {
            lemma_allocated_push(before.grants, after.grants.last(), 0);
        }
    }
}

/// Where neither the cart nor any discount has a cap that sets a limit, and
/// no price, quantity, amount or percentage is below zero, no cap is ever
/// hit and the amounts allocated add up to the amounts asked for.
pub proof fn lemma_uncapped_identity(cart: CartView, discounts: Seq<DiscountView>)
    requires
        limit_of(cart.cap) is None,
        uncapped(discounts),
        prices_valid(cart.lines),
        discounts_valid(discounts),
        all_resolvable(cart.lines, discounts),
    ensures
        allocated(settle(cart, discounts).grants) == requested(attempts(cart.lines, discounts)),
        settle(cart, discounts).flags.len() == 0,
        allocation(cart, discounts).notices.len() == 0,
{
    lemma_attempts_on_lines(cart.lines, discounts, discounts.len());
    lemma_attempts_nonnegative(cart.lines, discounts, discounts.len());
    lemma_settle_uncapped(empty_ledger(), attempts(cart.lines, discounts), discounts, cart.cap);
    assert(notices_of(discounts, settle(cart, discounts).flags) =~= Seq::empty());
}

// ---------------------------------------------------------------------------
// The results hold what the ledger holds
// ---------------------------------------------------------------------------

/// The sum of all amounts that a sequence of results holds.
pub open spec fn results_total(results: Seq<LineResultView>) -> real
    decreases results.len(),
{
    if results.len() == 0 {
        0real
    } else {
        results_total(results.drop_last()) + received(results.last().allocations)
    }
}

/// The sum of the amounts granted to cart line `line`.
pub open spec fn allocated_on(grants: Seq<Grant>, line: int) -> real
    decreases grants.len(),
{
    if grants.len() == 0 {
        0real
    } else if grants.last().line == line {
        allocated_on(grants.drop_last(), line) + grants.last().amount
    } else {
        allocated_on(grants.drop_last(), line)
    }
}

/// The sum of the amounts granted to the first `n` cart lines.
pub open spec fn allocated_before(grants: Seq<Grant>, n: int) -> real
    decreases grants.len(),
{
    if grants.len() == 0 {
        0real
    } else if 0 <= grants.last().line < n {
        allocated_before(grants.drop_last(), n) + grants.last().amount
    } else {
        allocated_before(grants.drop_last(), n)
    }
}

proof fn lemma_received_bucket(grants: Seq<Grant>, line: int)
    ensures
        received(bucket(grants, line)) == allocated_on(grants, line),
    decreases grants.len(),
{
    if grants.len() > 0 {
        lemma_received_bucket(grants.drop_last(), line);
        if grants.last().line == line {
            let earlier = bucket(grants.drop_last(), line);
            assert(earlier.push(recorded(grants.last())).drop_last() =~= earlier);
        }
    }
}

proof fn lemma_allocated_before_next(grants: Seq<Grant>, n: int)
    requires
        0 <= n,
    ensures
        allocated_before(grants, n + 1) == allocated_before(grants, n) + allocated_on(grants, n),
    decreases grants.len(),
{
    if grants.len() > 0 {
        lemma_allocated_before_next(grants.drop_last(), n);
    }
}

proof fn lemma_allocated_before_all(grants: Seq<Grant>, n: int)
    requires
        grants_on_lines(grants, n),
    ensures
        allocated_before(grants, n) == allocated(grants),
    decreases grants.len(),
{
    if grants.len() > 0 {
        let earlier = grants.drop_last();
        assert forall|k: int| 0 <= k < earlier.len() implies 0 <= (#[trigger] earlier[k]).line
            < n by {
            assert(earlier[k] == grants[k]);
        }
        lemma_allocated_before_all(earlier, n);
        assert(0 <= grants[grants.len() - 1].line < n);
    }
}

proof fn lemma_emitted_total(lines: Seq<CartLineView>, grants: Seq<Grant>, n: nat)
    ensures
        results_total(emitted(lines, grants, n)) == allocated_before(grants, n as int),
    decreases n,
{
    if n == 0 {
        lemma_allocated_before_none(grants);
    } else {
        lemma_emitted_total(lines, grants, (n - 1) as nat);
        lemma_received_bucket(grants, n - 1);
        lemma_allocated_before_next(grants, n - 1);
        let earlier = emitted(lines, grants, (n - 1) as nat);
        let held = bucket(grants, n - 1);
        if held.len() > 0 {
            let result = LineResultView {
                cart_line_id: lines[n - 1].id,
                quantity: lines[n - 1].quantity,
                allocations: held,
            };
            assert(earlier.push(result).drop_last() =~= earlier);
        }
    }
}

proof fn lemma_allocated_before_none(grants: Seq<Grant>)
    ensures
        allocated_before(grants, 0) == 0real,
    decreases grants.len(),
{
    if grants.len() > 0 {
        lemma_allocated_before_none(grants.drop_last());
    }
}

/// Every grant is on one of the first `n` cart lines.
pub open spec fn grants_on_lines(grants: Seq<Grant>, n: int) -> bool {
    forall|k: int| 0 <= k < grants.len() ==> 0 <= (#[trigger] grants[k]).line < n
}

proof fn lemma_settle_lines(
    ledger: Ledger,
    pending: Seq<Attempt>,
    discounts: Seq<DiscountView>,
    cart_cap: Option<real>,
    n: int,
)
    requires
        grants_on_lines(ledger.grants, n),
        attempts_on_lines(pending, n),
    ensures
        grants_on_lines(settle_from(ledger, pending, discounts, cart_cap).grants, n),
    decreases pending.len(),
{
    if pending.len() > 0 {
        let earlier = pending.drop_last();
        assert forall|k: int| 0 <= k < earlier.len() implies 0 <= (#[trigger] earlier[k]).line
            < n by {
            assert(earlier[k] == pending[k]);
        }
        lemma_settle_lines(ledger, earlier, discounts, cart_cap, n);
        assert(0 <= pending[pending.len() - 1].line < n);
    }
}

/// The amounts that the results hold add up to the amounts that were
/// granted: nothing granted is lost, and nothing is counted twice.
pub proof fn lemma_results_hold_grants(cart: CartView, discounts: Seq<DiscountView>)
    requires
        all_resolvable(cart.lines, discounts),
    ensures
        results_total(allocation(cart, discounts).lines) == allocated(
            settle(cart, discounts).grants,
        ),
{
    let grants = settle(cart, discounts).grants;
    lemma_attempts_on_lines(cart.lines, discounts, discounts.len());
    lemma_settle_lines(
        empty_ledger(),
        attempts(cart.lines, discounts),
        discounts,
        cart.cap,
        cart.lines.len() as int,
    );
    lemma_emitted_total(cart.lines, grants, cart.lines.len());
    lemma_allocated_before_all(grants, cart.lines.len() as int);
}

/// The amounts that the results hold never add up to more than the limit
/// that the cart's cap sets.
pub proof fn lemma_results_within_cart_cap(cart: CartView, discounts: Seq<DiscountView>)
    requires
        all_resolvable(cart.lines, discounts),
    ensures
        limit_of(cart.cap) matches Some(limit) ==> results_total(
            allocation(cart, discounts).lines,
        ) <= limit,
{
    lemma_results_hold_grants(cart, discounts);
    lemma_cart_cap_holds(cart, discounts);
}

/// Two runs on requests with the same view end alike, down to the fault.
pub proof fn lemma_run_determined(
    request: Request,
    first: Result<Allocation, Fault>,
    other_request: Request,
    second: Result<Allocation, Fault>,
)
    requires
        request@ == other_request@,
        run_outcome(request@, first),
        run_outcome(other_request@, second),
    ensures
        match (first, second) {
            (Ok(a), Ok(b)) => a@ == b@,
            (Err(e), Err(f)) => e == f,
            _ => false,
        },
{
}


} // verus!
