//! The allocation engine: one ordered pass over discounts, proposals and
//! targets that keeps a tally of what has been granted and which caps were
//! hit, and then reads the outcome off the tally.

use crate::amounts::{raw_amount_of, resolve_target, settle_amount, ResolvedTarget, Settled};
use crate::data::{
    cap_view, views, Allocation, CapNotice, CapNoticeView, CapReason, Cart, CartLine,
    CartLineView, Discount, DiscountProposal, DiscountView, Fault, LineAllocation, LineResult,
    Target, TargetView,
};
use crate::model::{
    all_resolvable, allocated, allocated_to, allocation, attempts_upto, attempts_within,
    base_price, bucket, collapse, discount_attempts, discount_resolvable, emitted, empty_ledger,
    ledger_below, lemma_allocated_push, lemma_allocated_to_untouched, lemma_bucket_push,
    lemma_discount_attempts_within, lemma_settle_below, lemma_settle_concat, lemma_settle_push,
    line_of, notice_of, notices_of, proposal_attempts, proposal_resolvable, raised, recorded,
    resolvable, settle_from, settlement, step, target_attempt, targets_price, total_price,
    Attempt, Flag, Grant, Ledger,
};
use crate::money::Money;
use vstd::prelude::*;

verus! {

/// A grant as the engine holds it.
struct GrantRecord {
    discount: usize,
    handle: String,
    line: usize,
    amount: Money,
}

impl View for GrantRecord {
    type V = Grant;

    closed spec fn view(&self) -> Grant {
        Grant {
            discount: self.discount as int,
            handle: self.handle@,
            line: self.line as int,
            amount: self.amount@,
        }
    }
}

/// A flag as the engine holds it.
struct FlagRecord {
    discount: usize,
    reason: CapReason,
}

impl View for FlagRecord {
    type V = Flag;

    closed spec fn view(&self) -> Flag {
        Flag { discount: self.discount as int, reason: self.reason }
    }
}

/// The running state of a pass: the ledger, and the two sums that the caps
/// are held against.
struct Tally {
    grants: Vec<GrantRecord>,
    flags: Vec<FlagRecord>,
    cart_total: Money,
    discount_total: Money,
}

impl View for Tally {
    type V = Ledger;

    closed spec fn view(&self) -> Ledger {
        Ledger { grants: views(self.grants@), flags: views(self.flags@) }
    }
}

impl Tally {
    /// The cart's running total is the sum of everything granted.
    spec fn cart_balanced(self) -> bool {
        self.cart_total@ == allocated(self@.grants)
    }

    /// Both running totals are the sums that they stand for, the second for
    /// the discount at position `d`.
    spec fn balanced(self, d: int) -> bool {
        self.cart_balanced() && self.discount_total@ == allocated_to(self@.grants, d)
    }
}

/// Whether `found` is what resolving `target` against `lines` gives.
spec fn resolved_as(lines: Seq<CartLineView>, target: TargetView, found: ResolvedTarget) -> bool {
    &&& resolvable(lines, target.cart_line_id)
    &&& found.line == line_of(lines, target.cart_line_id)
    &&& found.base@ == base_price(lines, target)
    &&& found.quantity as int == target.quantity
}

/// Resolves every target of a proposal: `None` exactly when one of them
/// cannot be resolved.
fn resolve_targets(lines: &Vec<CartLine>, targets: &Vec<Target>) -> (r: Option<
    Vec<ResolvedTarget>,
>)
    ensures
        match r {
            Some(found) => {
                &&& found@.len() == targets@.len()
                &&& forall|t: int|
                    0 <= t < targets@.len() ==> resolved_as(
                        views(lines@),
                        views(targets@)[t],
                        #[trigger] found@[t],
                    )
            },
            None => exists|t: int|
                0 <= t < targets@.len() && !resolvable(
                    views(lines@),
                    (#[trigger] views(targets@)[t]).cart_line_id,
                ),
        },
{
    let mut found: Vec<ResolvedTarget> = Vec::new();
    let mut t: usize = 0;
    while t < targets.len()
        invariant
            t <= targets.len(),
            found@.len() == t,
            forall|k: int|
                0 <= k < t ==> resolved_as(views(lines@), views(targets@)[k], #[trigger] found@[k]),
        decreases targets.len() - t,
    {
        match resolve_target(lines, &targets[t]) {
            Some(item) => {
                found.push(item);
            },
            None => {
                assert(!resolvable(views(lines@), views(targets@)[t as int].cart_line_id));
                return None;
            },
        }
        t += 1;
    }
    Some(found)
}

/// Settles one attempt and enters the result in the tally.
fn apply_attempt(
    tally: &mut Tally,
    discount_cap: &Option<Money>,
    cart_cap: &Option<Money>,
    d: usize,
    handle: &String,
    line: usize,
    raw: &Money,
    Ghost(discounts): Ghost<Seq<DiscountView>>,
)
    requires
        old(tally).balanced(d as int),
        d < discounts.len(),
        discounts[d as int].cap == cap_view(*discount_cap),
    ensures
        final(tally).balanced(d as int),
        final(tally)@ == step(
            old(tally)@,
            Attempt { discount: d as int, handle: handle@, line: line as int, raw: raw@ },
            discounts,
            cap_view(*cart_cap),
        ),
{
    let ghost before = tally@;
    let ghost outcome = settlement(
        raw@,
        cap_view(*discount_cap),
        allocated_to(before.grants, d as int),
        cap_view(*cart_cap),
        allocated(before.grants),
    );
    let settled: Settled = settle_amount(
        raw,
        discount_cap,
        &tally.discount_total,
        cart_cap,
        &tally.cart_total,
    );
    if settled.hit_discount_cap {
        tally.flags.push(FlagRecord { discount: d, reason: CapReason::DiscountCap });
    }
    if settled.hit_cart_cap {
        tally.flags.push(FlagRecord { discount: d, reason: CapReason::CartCap });
    }
    assert(views(tally.flags@) =~= before.flags + raised(d as int, outcome));
    if settled.amount.is_positive() {
        let cart_total: Money = tally.cart_total.add(&settled.amount);
        let discount_total: Money = tally.discount_total.add(&settled.amount);
        let record = GrantRecord { discount: d, handle: handle.clone(), line, amount: settled.amount };
        proof {
            lemma_allocated_push(before.grants, record@, d as int);
            assert(views(tally.grants@.push(record)) =~= before.grants.push(record@));
        }
        tally.cart_total = cart_total;
        tally.discount_total = discount_total;
        tally.grants.push(record);
    } else {
        assert(views(tally.grants@) =~= before.grants);
    }
}

/// Runs one proposal: resolves its targets, and where its total price is not
/// zero settles one attempt for each target in order. Returns whether every
/// target could be resolved; where one could not, the tally is of no use.
fn apply_proposal(
    tally: &mut Tally,
    lines: &Vec<CartLine>,
    discount_cap: &Option<Money>,
    cart_cap: &Option<Money>,
    d: usize,
    proposal: &DiscountProposal,
    Ghost(discounts): Ghost<Seq<DiscountView>>,
) -> (ok: bool)
    requires
        old(tally).balanced(d as int),
        d < discounts.len(),
        discounts[d as int].cap == cap_view(*discount_cap),
    ensures
        ok == proposal_resolvable(views(lines@), proposal@),
        ok ==> final(tally).balanced(d as int) && final(tally)@ == settle_from(
            old(tally)@,
            proposal_attempts(views(lines@), d as int, proposal@),
            discounts,
            cap_view(*cart_cap),
        ),
{
    let ghost model = views(lines@);
    let ghost start = tally@;
    let resolved: Vec<ResolvedTarget> = match resolve_targets(lines, &proposal.targets) {
        Some(found) => found,
        None => {
            proof {
                let w = choose|w: int|
                    0 <= w < proposal.targets@.len() && !resolvable(
                        model,
                        (#[trigger] views(proposal.targets@)[w]).cart_line_id,
                    );
                assert(proposal@.targets[w] == views(proposal.targets@)[w]);
            }
            return false;
        },
    };
    assert(proposal_resolvable(model, proposal@)) by {
        assert forall|t: int| 0 <= t < proposal@.targets.len() implies resolvable(
            model,
            (#[trigger] proposal@.targets[t]).cart_line_id,
        ) by {
            assert(resolved_as(model, views(proposal.targets@)[t], resolved@[t]));
        }
    }
    let mut total: Money = Money::zero();
    let mut k: usize = 0;
    while k < resolved.len()
        invariant
            k <= resolved.len(),
            resolved@.len() == proposal.targets@.len(),
            forall|t: int|
                0 <= t < resolved@.len() ==> resolved_as(
                    model,
                    views(proposal.targets@)[t],
                    #[trigger] resolved@[t],
                ),
            total@ == targets_price(model, proposal@.targets, k as nat),
        decreases resolved.len() - k,
    {
        assert(resolved_as(model, views(proposal.targets@)[k as int], resolved@[k as int]));
        total = total.add(&resolved[k].base);
        k += 1;
    }
    assert(total@ == total_price(model, proposal@));
    if total.is_zero() {
        return true;
    }
    let ghost planned = proposal_attempts(model, d as int, proposal@);
    let mut t: usize = 0;
    assert(planned.take(0) =~= Seq::<Attempt>::empty());
    while t < resolved.len()
        invariant
            t <= resolved.len(),
            resolved@.len() == proposal.targets@.len(),
            forall|j: int|
                0 <= j < resolved@.len() ==> resolved_as(
                    model,
                    views(proposal.targets@)[j],
                    #[trigger] resolved@[j],
                ),
            model == views(lines@),
            total@ == total_price(model, proposal@),
            total@ != 0real,
            planned == proposal_attempts(model, d as int, proposal@),
            planned.len() == resolved@.len(),
            d < discounts.len(),
            discounts[d as int].cap == cap_view(*discount_cap),
            tally.balanced(d as int),
            tally@ == settle_from(start, planned.take(t as int), discounts, cap_view(*cart_cap)),
        decreases resolved.len() - t,
    {
        let item: &ResolvedTarget = &resolved[t];
        assert(resolved_as(model, views(proposal.targets@)[t as int], resolved@[t as int]));
        match raw_amount_of(&proposal.value, &item.base, &total, item.quantity) {
            Some(raw) => {
                proof {
                    assert(planned[t as int] == target_attempt(model, d as int, proposal@, t as int));
                    assert(planned.take(t + 1) =~= planned.take(t as int).push(planned[t as int]));
                    lemma_settle_push(
                        start,
                        planned.take(t as int),
                        planned[t as int],
                        discounts,
                        cap_view(*cart_cap),
                    );
                }
                apply_attempt(
                    tally,
                    discount_cap,
                    cart_cap,
                    d,
                    &proposal.handle,
                    item.line,
                    &raw,
                    Ghost(discounts),
                );
            },
            None => {},
        }
        t += 1;
    }
    assert(planned.take(t as int) =~= planned);
    true
}

/// Runs one discount: starts its running total at zero and runs its
/// proposals in order. Returns whether every target could be resolved.
fn apply_discount(
    tally: &mut Tally,
    lines: &Vec<CartLine>,
    cart_cap: &Option<Money>,
    d: usize,
    discount: &Discount,
    Ghost(discounts): Ghost<Seq<DiscountView>>,
) -> (ok: bool)
    requires
        old(tally).cart_balanced(),
        allocated_to(old(tally)@.grants, d as int) == 0real,
        d < discounts.len(),
        discounts[d as int] == discount@,
    ensures
        ok == discount_resolvable(views(lines@), discount@),
        ok ==> final(tally).cart_balanced() && final(tally)@ == settle_from(
            old(tally)@,
            discount_attempts(views(lines@), d as int, discount@, discount@.proposals.len()),
            discounts,
            cap_view(*cart_cap),
        ),
{
    let ghost model = views(lines@);
    let ghost start = tally@;
    tally.discount_total = Money::zero();
    let mut p: usize = 0;
    while p < discount.proposals.len()
        invariant
            p <= discount.proposals.len(),
            model == views(lines@),
            d < discounts.len(),
            discounts[d as int] == discount@,
            tally.balanced(d as int),
            forall|q: int| 0 <= q < p ==> proposal_resolvable(model, #[trigger] discount@.proposals[q]),
            tally@ == settle_from(
                start,
                discount_attempts(model, d as int, discount@, p as nat),
                discounts,
                cap_view(*cart_cap),
            ),
        decreases discount.proposals.len() - p,
    {
        let ok: bool = apply_proposal(
            tally,
            lines,
            &discount.cap,
            cart_cap,
            d,
            &discount.proposals[p],
            Ghost(discounts),
        );
        assert(discount@.proposals[p as int] == discount.proposals@[p as int]@);
        if !ok {
            return false;
        }
        proof {
            lemma_settle_concat(
                start,
                discount_attempts(model, d as int, discount@, p as nat),
                proposal_attempts(model, d as int, discount@.proposals[p as int]),
                discounts,
                cap_view(*cart_cap),
            );
        }
        p += 1;
    }
    true
}

/// What cart line `line` has received, in the order in which it was granted.
fn collect_bucket(grants: &Vec<GrantRecord>, line: usize) -> (r: Vec<LineAllocation>)
    ensures
        views(r@) == bucket(views(grants@), line as int),
{
    let ghost all = views(grants@);
    let mut out: Vec<LineAllocation> = Vec::new();
    let mut k: usize = 0;
    assert(all.take(0) =~= Seq::<Grant>::empty());
    while k < grants.len()
        invariant
            k <= grants.len(),
            all == views(grants@),
            views(out@) == bucket(all.take(k as int), line as int),
        decreases grants.len() - k,
    {
        proof {
            assert(all.take(k + 1) =~= all.take(k as int).push(all[k as int]));
            lemma_bucket_push(all.take(k as int), all[k as int], line as int);
        }
        if grants[k].line == line {
            let entry = LineAllocation {
                proposal_handle: grants[k].handle.clone(),
                amount: grants[k].amount.duplicate(),
            };
            assert(entry@ == recorded(all[k as int]));
            assert(views(out@.push(entry)) =~= views(out@).push(entry@));
            out.push(entry);
        }
        k += 1;
    }
    assert(all.take(k as int) =~= all);
    out
}

/// The results for the cart lines that have received anything, in cart order.
fn emit_lines(lines: &Vec<CartLine>, grants: &Vec<GrantRecord>) -> (r: Vec<LineResult>)
    ensures
        views(r@) == emitted(views(lines@), views(grants@), lines@.len()),
{
    let mut out: Vec<LineResult> = Vec::new();
    let mut i: usize = 0;
    while i < lines.len()
        invariant
            i <= lines.len(),
            views(out@) == emitted(views(lines@), views(grants@), i as nat),
        decreases lines.len() - i,
    {
        let received: Vec<LineAllocation> = collect_bucket(grants, i);
        if received.len() > 0 {
            let result = LineResult {
                cart_line_id: lines[i].id.clone(),
                quantity: lines[i].quantity,
                allocations: received,
            };
            assert(views(out@.push(result)) =~= views(out@).push(result@));
            out.push(result);
        }
        i += 1;
    }
    out
}

/// The notices that the flags are shown as, one for each flag in order.
fn show_flags(discounts: &Vec<Discount>, flags: &Vec<FlagRecord>) -> (r: Vec<CapNotice>)
    requires
        forall|k: int| 0 <= k < flags@.len() ==> (#[trigger] flags@[k]).discount < discounts@.len(),
    ensures
        views(r@) == notices_of(views(discounts@), views(flags@)),
{
    let mut out: Vec<CapNotice> = Vec::new();
    let mut k: usize = 0;
    while k < flags.len()
        invariant
            k <= flags.len(),
            forall|j: int|
                0 <= j < flags@.len() ==> (#[trigger] flags@[j]).discount < discounts@.len(),
            out@.len() == k,
            forall|j: int|
                0 <= j < k ==> (#[trigger] out@[j])@ == notice_of(
                    views(discounts@),
                    views(flags@)[j],
                ),
        decreases flags.len() - k,
    {
        let flag: &FlagRecord = &flags[k];
        out.push(
            CapNotice { discount_id: discounts[flag.discount].id.clone(), reason: flag.reason },
        );
        k += 1;
    }
    assert(views(out@) =~= notices_of(views(discounts@), views(flags@)));
    out
}

/// Reduces each run of equal neighbouring notices to its first notice.
/// Equal notices that are not neighbours all stay.
pub fn collapse_notices(notices: &Vec<CapNotice>) -> (r: Vec<CapNotice>)
    ensures
        views(r@) == collapse(views(notices@)),
{
    let ghost all = views(notices@);
    let mut out: Vec<CapNotice> = Vec::new();
    let mut k: usize = 0;
    assert(all.take(0) =~= Seq::<CapNoticeView>::empty());
    while k < notices.len()
        invariant
            k <= notices.len(),
            all == views(notices@),
            views(out@) == collapse(all.take(k as int)),
        decreases notices.len() - k,
    {
        let ghost upto = all.take(k + 1);
        assert(upto.drop_last() =~= all.take(k as int));
        let repeat: bool = k > 0 && notices[k].same_as(&notices[k - 1]);
        if !repeat {
            let copy: CapNotice = notices[k].duplicate();
            assert(views(out@.push(copy)) =~= views(out@).push(copy@));
            out.push(copy);
            assert(views(out@) =~= collapse(upto)) by {
                if k == 0 {
                    assert(upto =~= seq![all[0]]);
                }
            }
        }
        k += 1;
    }
    assert(all.take(k as int) =~= all);
    out
}

/// Whether `result` is what allocating `discounts` over `cart` must give:
/// the one outcome that the model names, or a fault where some target does
/// not name exactly one line of the cart.
pub open spec fn allocate_outcome(
    cart: Cart,
    discounts: Seq<Discount>,
    result: Result<Allocation, Fault>,
) -> bool {
    match result {
        Ok(outcome) => all_resolvable(cart@.lines, views(discounts)) && outcome@ == allocation(
            cart@,
            views(discounts),
        ),
        Err(fault) => !all_resolvable(cart@.lines, views(discounts)) && fault
            == Fault::UnresolvedTarget,
    }
}

/// Allocates the discounts over the lines of the cart.
///
/// Discounts, their proposals and their targets are taken in order. Each
/// target asks for a raw amount, which is cut first to what is left under
/// its discount's cap and then to what is left under the cart's cap; each
/// cut leaves a notice. What is left, if positive, is given to the target's
/// line. A proposal whose total price is zero is passed over. The outcome
/// holds the lines that received something, in cart order, and the notices
/// with runs of equal neighbours reduced to one.
///
/// Fails, with nothing allocated, where a target names a line that the cart
/// does not hold exactly once.
pub fn allocate(cart: &Cart, discounts: &Vec<Discount>) -> (r: Result<Allocation, Fault>)
    ensures
        allocate_outcome(*cart, discounts@, r),
{
    let ghost lines = views(cart.lines@);
    let ghost discount_views = views(discounts@);
    let ghost cart_cap = cap_view(cart.cap);
    let mut tally = Tally {
        grants: Vec::new(),
        flags: Vec::new(),
        cart_total: Money::zero(),
        discount_total: Money::zero(),
    };
    assert(tally@ == empty_ledger()) by {
        assert(tally@.grants =~= Seq::<Grant>::empty());
        assert(tally@.flags =~= Seq::<Flag>::empty());
    }
    let mut d: usize = 0;
    while d < discounts.len()
        invariant
            d <= discounts.len(),
            lines == views(cart.lines@),
            discount_views == views(discounts@),
            cart_cap == cap_view(cart.cap),
            tally.cart_balanced(),
            ledger_below(tally@, d as int),
            forall|q: int| 0 <= q < d ==> discount_resolvable(lines, #[trigger] discount_views[q]),
            tally@ == settle_from(
                empty_ledger(),
                attempts_upto(lines, discount_views, d as nat),
                discount_views,
                cart_cap,
            ),
        decreases discounts.len() - d,
    {
        let ghost before = tally@;
        let ghost planned = discount_attempts(
            lines,
            d as int,
            discount_views[d as int],
            discount_views[d as int].proposals.len(),
        );
        proof {
            lemma_allocated_to_untouched(before.grants, d as int);
        }
        let ok: bool = apply_discount(
            &mut tally,
            &cart.lines,
            &cart.cap,
            d,
            &discounts[d],
            Ghost(discount_views),
        );
        if !ok {
            assert(!discount_resolvable(lines, discount_views[d as int]));
            return Err(Fault::UnresolvedTarget);
        }
        proof {
            lemma_settle_concat(
                empty_ledger(),
                attempts_upto(lines, discount_views, d as nat),
                planned,
                discount_views,
                cart_cap,
            );
            lemma_discount_attempts_within(
                lines,
                d as int,
                discount_views[d as int],
                discount_views[d as int].proposals.len(),
            );
            assert(ledger_below(before, d + 1));
            assert(attempts_within(planned, 0, d + 1));
            lemma_settle_below(before, planned, discount_views, cart_cap, d + 1);
        }
        d += 1;
    }
    let line_results: Vec<LineResult> = emit_lines(&cart.lines, &tally.grants);
    assert forall|k: int| 0 <= k < tally.flags@.len() implies (#[trigger] tally.flags@[k]).discount
        < discounts@.len() by {
        assert(tally@.flags[k] == tally.flags@[k]@);
    }
    let shown: Vec<CapNotice> = show_flags(discounts, &tally.flags);
    let notices: Vec<CapNotice> = collapse_notices(&shown);
    Ok(Allocation { lines: line_results, notices })
}

} // verus!
