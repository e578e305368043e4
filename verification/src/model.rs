//! What an allocation is, stated over the views of its inputs.
//!
//! The model has three layers. The first turns discounts, proposals and
//! targets into one ordered sequence of *attempts*, each asking for a raw
//! amount on one cart line. The second settles the attempts one after another
//! against the two caps and keeps a *ledger* of what was granted and which
//! caps were hit. The third reads the outcome off the ledger: for each cart
//! line what it received, and the notices with adjacent repeats collapsed.

use crate::data::{
    AllocationView, CapNoticeView, CapReason, CartLineView, CartView, DiscountProposalView,
    DiscountValueView, DiscountView, LineAllocationView, LineResultView, TargetView,
};
use vstd::prelude::*;

verus! {

// ---------------------------------------------------------------------------
// Resolving a target to a cart line
// ---------------------------------------------------------------------------

/// Line `i` holds the identifier `id`, and no other line does.
pub open spec fn resolves_to(lines: Seq<CartLineView>, id: Seq<char>, i: int) -> bool {
    &&& 0 <= i < lines.len()
    &&& lines[i].id == id
    &&& forall|j: int| 0 <= j < lines.len() && (#[trigger] lines[j]).id == id ==> j == i
}

/// Exactly one line of the cart holds the identifier `id`.
pub open spec fn resolvable(lines: Seq<CartLineView>, id: Seq<char>) -> bool {
    exists|i: int| resolves_to(lines, id, i)
}

/// The position of the one line that holds `id`.
pub open spec fn line_of(lines: Seq<CartLineView>, id: Seq<char>) -> int {
    choose|i: int| resolves_to(lines, id, i)
}

/// Every target of the proposal names exactly one line of the cart.
pub open spec fn proposal_resolvable(
    lines: Seq<CartLineView>,
    proposal: DiscountProposalView,
) -> bool {
    forall|t: int|
        0 <= t < proposal.targets.len() ==> resolvable(
            lines,
            (#[trigger] proposal.targets[t]).cart_line_id,
        )
}

/// Every target of the discount names exactly one line of the cart.
pub open spec fn discount_resolvable(lines: Seq<CartLineView>, discount: DiscountView) -> bool {
    forall|p: int|
        0 <= p < discount.proposals.len() ==> proposal_resolvable(
            lines,
            #[trigger] discount.proposals[p],
        )
}

/// Every target of every discount names exactly one line of the cart.
pub open spec fn all_resolvable(lines: Seq<CartLineView>, discounts: Seq<DiscountView>) -> bool {
    forall|d: int|
        0 <= d < discounts.len() ==> discount_resolvable(lines, #[trigger] discounts[d])
}

// ---------------------------------------------------------------------------
// Raw amounts
// ---------------------------------------------------------------------------

/// The price of what a target covers: its line's unit price times the
/// quantity that the target consumes.
pub open spec fn base_price(lines: Seq<CartLineView>, target: TargetView) -> real {
    lines[line_of(lines, target.cart_line_id)].unit_price * (target.quantity as real)
}

/// The summed base price of the first `k` targets.
pub open spec fn targets_price(lines: Seq<CartLineView>, targets: Seq<TargetView>, k: nat) -> real
    decreases k,
{
    if k == 0 {
        0real
    } else {
        targets_price(lines, targets, (k - 1) as nat) + base_price(lines, targets[k - 1])
    }
}

/// The summed base price of all targets of a proposal.
pub open spec fn total_price(lines: Seq<CartLineView>, proposal: DiscountProposalView) -> real {
    targets_price(lines, proposal.targets, proposal.targets.len())
}

/// The amount that a proposal asks for on one target, before any cap: `base`
/// is the target's base price, `total` the proposal's total price, `quantity`
/// the quantity the target consumes.
pub open spec fn raw_amount(value: DiscountValueView, base: real, total: real, quantity: int) -> real {
    match value {
        DiscountValueView::FixedAmount { amount, applies_to_each_item } => {
            if applies_to_each_item {
                amount * (quantity as real)
            } else {
                amount * (base / total)
            }
        },
        DiscountValueView::Percentage { value } => value / 100real * total * (base / total),
    }
}

/// A request to give `raw` to cart line `line` on behalf of the proposal
/// `handle` of the discount at position `discount`.
pub struct Attempt {
    pub discount: int,
    pub handle: Seq<char>,
    pub line: int,
    pub raw: real,
}

/// The attempt that target `t` of a proposal gives rise to.
pub open spec fn target_attempt(
    lines: Seq<CartLineView>,
    d: int,
    proposal: DiscountProposalView,
    t: int,
) -> Attempt {
    let target = proposal.targets[t];
    Attempt {
        discount: d,
        handle: proposal.handle,
        line: line_of(lines, target.cart_line_id),
        raw: raw_amount(
            proposal.value,
            base_price(lines, target),
            total_price(lines, proposal),
            target.quantity,
        ),
    }
}

/// The attempts of one proposal, one for each target in order. A proposal
/// whose total price is zero has no share ratio and makes no attempt.
pub open spec fn proposal_attempts(
    lines: Seq<CartLineView>,
    d: int,
    proposal: DiscountProposalView,
) -> Seq<Attempt> {
    if total_price(lines, proposal) == 0real {
        Seq::empty()
    } else {
        Seq::new(proposal.targets.len(), |t: int| target_attempt(lines, d, proposal, t))
    }
}

/// The attempts of the first `p` proposals of a discount.
pub open spec fn discount_attempts(
    lines: Seq<CartLineView>,
    d: int,
    discount: DiscountView,
    p: nat,
) -> Seq<Attempt>
    decreases p,
{
    if p == 0 {
        Seq::empty()
    } else {
        discount_attempts(lines, d, discount, (p - 1) as nat) + proposal_attempts(
            lines,
            d,
            discount.proposals[p - 1],
        )
    }
}

/// The attempts of the first `d` discounts.
pub open spec fn attempts_upto(lines: Seq<CartLineView>, discounts: Seq<DiscountView>, d: nat) -> Seq<
    Attempt,
>
    decreases d,
{
    if d == 0 {
        Seq::empty()
    } else {
        attempts_upto(lines, discounts, (d - 1) as nat) + discount_attempts(
            lines,
            d - 1,
            discounts[d - 1],
            discounts[d - 1].proposals.len(),
        )
    }
}

/// All attempts, in the order discount, proposal, target.
pub open spec fn attempts(lines: Seq<CartLineView>, discounts: Seq<DiscountView>) -> Seq<Attempt> {
    attempts_upto(lines, discounts, discounts.len())
}

/// The sum of the raw amounts of a sequence of attempts.
pub open spec fn requested(attempts: Seq<Attempt>) -> real
    decreases attempts.len(),
{
    if attempts.len() == 0 {
        0real
    } else {
        requested(attempts.drop_last()) + attempts.last().raw
    }
}

// ---------------------------------------------------------------------------
// Settling attempts against the caps
// ---------------------------------------------------------------------------

/// An amount that was given to a cart line.
pub struct Grant {
    pub discount: int,
    pub handle: Seq<char>,
    pub line: int,
    pub amount: real,
}

/// A cap that was hit while settling an attempt of the discount at position
/// `discount`.
pub struct Flag {
    pub discount: int,
    pub reason: CapReason,
}

/// What has been granted and flagged so far.
pub struct Ledger {
    pub grants: Seq<Grant>,
    pub flags: Seq<Flag>,
}

/// The ledger before anything has been settled.
pub open spec fn empty_ledger() -> Ledger {
    Ledger { grants: Seq::empty(), flags: Seq::empty() }
}

/// The sum of all granted amounts.
pub open spec fn allocated(grants: Seq<Grant>) -> real
    decreases grants.len(),
{
    if grants.len() == 0 {
        0real
    } else {
        allocated(grants.drop_last()) + grants.last().amount
    }
}

/// The sum of the amounts granted on behalf of the discount at position `d`.
pub open spec fn allocated_to(grants: Seq<Grant>, d: int) -> real
    decreases grants.len(),
{
    if grants.len() == 0 {
        0real
    } else if grants.last().discount == d {
        allocated_to(grants.drop_last(), d) + grants.last().amount
    } else {
        allocated_to(grants.drop_last(), d)
    }
}

/// The limit that a cap sets. A cap that is absent sets none, and neither
/// does one below zero.
pub open spec fn limit_of(cap: Option<real>) -> Option<real> {
    match cap {
        Some(limit) => if limit >= 0real {
            Some(limit)
        } else {
            None
        },
        None => None,
    }
}

/// Whether adding `amount` to `running` would go past the cap.
pub open spec fn exceeds(cap: Option<real>, running: real, amount: real) -> bool {
    match limit_of(cap) {
        Some(limit) => running + amount > limit,
        None => false,
    }
}

/// `amount`, cut down to what is left under the cap where it would go past it.
pub open spec fn clamp(cap: Option<real>, running: real, amount: real) -> real {
    if exceeds(cap, running, amount) {
        limit_of(cap).unwrap() - running
    } else {
        amount
    }
}

/// What one attempt comes to once both caps have been applied, the
/// discount's cap first and the cart's cap second.
pub struct Settlement {
    pub amount: real,
    pub hit_discount_cap: bool,
    pub hit_cart_cap: bool,
}

/// The settlement of a raw amount, given what the discount and the cart have
/// been granted so far.
pub open spec fn settlement(
    raw: real,
    discount_cap: Option<real>,
    discount_total: real,
    cart_cap: Option<real>,
    cart_total: real,
) -> Settlement {
    let capped = clamp(discount_cap, discount_total, raw);
    Settlement {
        amount: clamp(cart_cap, cart_total, capped),
        hit_discount_cap: exceeds(discount_cap, discount_total, raw),
        hit_cart_cap: exceeds(cart_cap, cart_total, capped),
    }
}

/// The flags that a settlement raises, in the order in which the caps are
/// applied.
pub open spec fn raised(d: int, outcome: Settlement) -> Seq<Flag> {
    let first = if outcome.hit_discount_cap {
        seq![Flag { discount: d, reason: CapReason::DiscountCap }]
    } else {
        Seq::<Flag>::empty()
    };
    if outcome.hit_cart_cap {
        first.push(Flag { discount: d, reason: CapReason::CartCap })
    } else {
        first
    }
}

/// The ledger after one more attempt. The attempt is settled against the
/// running totals; what it raises is flagged; and it is granted only where
/// a positive amount is left.
pub open spec fn step(
    ledger: Ledger,
    attempt: Attempt,
    discounts: Seq<DiscountView>,
    cart_cap: Option<real>,
) -> Ledger {
    let outcome = settlement(
        attempt.raw,
        discounts[attempt.discount].cap,
        allocated_to(ledger.grants, attempt.discount),
        cart_cap,
        allocated(ledger.grants),
    );
    Ledger {
        grants: if outcome.amount > 0real {
            ledger.grants.push(
                Grant {
                    discount: attempt.discount,
                    handle: attempt.handle,
                    line: attempt.line,
                    amount: outcome.amount,
                },
            )
        } else {
            ledger.grants
        },
        flags: ledger.flags + raised(attempt.discount, outcome),
    }
}

/// The ledger after a sequence of attempts, starting from `ledger`.
pub open spec fn settle_from(
    ledger: Ledger,
    attempts: Seq<Attempt>,
    discounts: Seq<DiscountView>,
    cart_cap: Option<real>,
) -> Ledger
    decreases attempts.len(),
{
    if attempts.len() == 0 {
        ledger
    } else {
        step(
            settle_from(ledger, attempts.drop_last(), discounts, cart_cap),
            attempts.last(),
            discounts,
            cart_cap,
        )
    }
}

/// The ledger after all attempts of an input.
pub open spec fn settle(cart: CartView, discounts: Seq<DiscountView>) -> Ledger {
    settle_from(empty_ledger(), attempts(cart.lines, discounts), discounts, cart.cap)
}

// ---------------------------------------------------------------------------
// Reading the outcome off the ledger
// ---------------------------------------------------------------------------

/// The allocation that a grant is recorded as.
pub open spec fn recorded(grant: Grant) -> LineAllocationView {
    LineAllocationView { proposal_handle: grant.handle, amount: grant.amount }
}

/// What cart line `line` has received, in the order in which it was granted.
pub open spec fn bucket(grants: Seq<Grant>, line: int) -> Seq<LineAllocationView>
    decreases grants.len(),
{
    if grants.len() == 0 {
        Seq::empty()
    } else if grants.last().line == line {
        bucket(grants.drop_last(), line).push(recorded(grants.last()))
    } else {
        bucket(grants.drop_last(), line)
    }
}

/// The results for the first `n` cart lines: one for each line that has
/// received anything, in cart order.
pub open spec fn emitted(lines: Seq<CartLineView>, grants: Seq<Grant>, n: nat) -> Seq<
    LineResultView,
>
    decreases n,
{
    if n == 0 {
        Seq::empty()
    } else {
        let before = emitted(lines, grants, (n - 1) as nat);
        let received = bucket(grants, n - 1);
        if received.len() > 0 {
            before.push(
                LineResultView {
                    cart_line_id: lines[n - 1].id,
                    quantity: lines[n - 1].quantity,
                    allocations: received,
                },
            )
        } else {
            before
        }
    }
}

/// The notice that a flag is shown as.
pub open spec fn notice_of(discounts: Seq<DiscountView>, flag: Flag) -> CapNoticeView {
    CapNoticeView { discount_id: discounts[flag.discount].id, reason: flag.reason }
}

/// The notices that a sequence of flags is shown as.
pub open spec fn notices_of(discounts: Seq<DiscountView>, flags: Seq<Flag>) -> Seq<CapNoticeView> {
    Seq::new(flags.len(), |i: int| notice_of(discounts, flags[i]))
}

/// A sequence with each run of equal neighbours reduced to its first
/// element. Equal elements that are not neighbours all stay.
pub open spec fn collapse<T>(items: Seq<T>) -> Seq<T>
    decreases items.len(),
{
    if items.len() <= 1 {
        items
    } else if items[items.len() - 1] == items[items.len() - 2] {
        collapse(items.drop_last())
    } else {
        collapse(items.drop_last()).push(items.last())
    }
}

/// The outcome of allocating `discounts` over `cart`.
pub open spec fn allocation(cart: CartView, discounts: Seq<DiscountView>) -> AllocationView {
    let ledger = settle(cart, discounts);
    AllocationView {
        lines: emitted(cart.lines, ledger.grants, cart.lines.len()),
        notices: collapse(notices_of(discounts, ledger.flags)),
    }
}

// ---------------------------------------------------------------------------
// How the sums and the ledger grow
// ---------------------------------------------------------------------------

/// One more grant adds its amount to the cart's sum, and to the sum of its
/// own discount only.
pub proof fn lemma_allocated_push(grants: Seq<Grant>, grant: Grant, d: int)
    ensures
        allocated(grants.push(grant)) == allocated(grants) + grant.amount,
        allocated_to(grants.push(grant), d) == allocated_to(grants, d) + if grant.discount == d {
            grant.amount
        } else {
            0real
        },
{
    assert(grants.push(grant).drop_last() =~= grants);
}

/// One more grant is appended to the bucket of its own line only.
pub proof fn lemma_bucket_push(grants: Seq<Grant>, grant: Grant, line: int)
    ensures
        bucket(grants.push(grant), line) == if grant.line == line {
            bucket(grants, line).push(recorded(grant))
        } else {
            bucket(grants, line)
        },
{
    assert(grants.push(grant).drop_last() =~= grants);
}

/// Settling one more attempt is one more step.
pub proof fn lemma_settle_push(
    ledger: Ledger,
    attempts: Seq<Attempt>,
    attempt: Attempt,
    discounts: Seq<DiscountView>,
    cart_cap: Option<real>,
)
    ensures
        settle_from(ledger, attempts.push(attempt), discounts, cart_cap) == step(
            settle_from(ledger, attempts, discounts, cart_cap),
            attempt,
            discounts,
            cart_cap,
        ),
{
    assert(attempts.push(attempt).drop_last() =~= attempts);
}

/// Settling two runs of attempts one after the other is settling their
/// concatenation.
pub proof fn lemma_settle_concat(
    ledger: Ledger,
    first: Seq<Attempt>,
    second: Seq<Attempt>,
    discounts: Seq<DiscountView>,
    cart_cap: Option<real>,
)
    ensures
        settle_from(ledger, first + second, discounts, cart_cap) == settle_from(
            settle_from(ledger, first, discounts, cart_cap),
            second,
            discounts,
            cart_cap,
        ),
    decreases second.len(),
{
    if second.len() == 0 {
        assert(first + second =~= first);
    } else {
        lemma_settle_concat(ledger, first, second.drop_last(), discounts, cart_cap);
        assert((first + second).drop_last() =~= first + second.drop_last());
        assert((first + second).last() == second.last());
    }
}

/// Every grant and every flag of the ledger belongs to one of the first `n`
/// discounts.
pub open spec fn ledger_below(ledger: Ledger, n: int) -> bool {
    &&& forall|k: int|
        0 <= k < ledger.grants.len() ==> 0 <= (#[trigger] ledger.grants[k]).discount < n
    &&& forall|k: int| 0 <= k < ledger.flags.len() ==> 0 <= (#[trigger] ledger.flags[k]).discount < n
}

/// Every attempt belongs to a discount at a position from `from` up to, and
/// not including, `to`.
pub open spec fn attempts_within(attempts: Seq<Attempt>, from: int, to: int) -> bool {
    forall|k: int| 0 <= k < attempts.len() ==> from <= (#[trigger] attempts[k]).discount < to
}

/// Settling attempts of the first `n` discounts keeps the ledger among them.
pub proof fn lemma_settle_below(
    ledger: Ledger,
    attempts: Seq<Attempt>,
    discounts: Seq<DiscountView>,
    cart_cap: Option<real>,
    n: int,
)
    requires
        ledger_below(ledger, n),
        attempts_within(attempts, 0, n),
    ensures
        ledger_below(settle_from(ledger, attempts, discounts, cart_cap), n),
    decreases attempts.len(),
{
    if attempts.len() > 0 {
        let before = attempts.drop_last();
        assert forall|k: int| 0 <= k < before.len() implies 0 <= (#[trigger] before[k]).discount
            < n by {
            assert(before[k] == attempts[k]);
        }
        lemma_settle_below(ledger, before, discounts, cart_cap, n);
        assert(0 <= attempts[attempts.len() - 1].discount < n);
    }
}

/// The attempts of a discount all carry that discount's position.
pub proof fn lemma_discount_attempts_within(
    lines: Seq<CartLineView>,
    d: int,
    discount: DiscountView,
    p: nat,
)
    ensures
        attempts_within(discount_attempts(lines, d, discount, p), d, d + 1),
    decreases p,
{
    if p > 0 {
        lemma_discount_attempts_within(lines, d, discount, (p - 1) as nat);
    }
}

/// A discount that has been granted nothing has a sum of zero.
pub proof fn lemma_allocated_to_untouched(grants: Seq<Grant>, d: int)
    requires
        forall|k: int| 0 <= k < grants.len() ==> (#[trigger] grants[k]).discount != d,
    ensures
        allocated_to(grants, d) == 0real,
    decreases grants.len(),
{
    if grants.len() > 0 {
        let before = grants.drop_last();
        assert forall|k: int| 0 <= k < before.len() implies (#[trigger] before[k]).discount != d by {
            assert(before[k] == grants[k]);
        }
        lemma_allocated_to_untouched(before, d);
        assert(grants[grants.len() - 1].discount != d);
    }
}


} // verus!
