//! The flat rules that stand beside the allocation engine. Each gives at most
//! one percentage discount: one to the cart lines bought in quantity, one to
//! an order from a minimum subtotal up. They cap nothing and split nothing.

use crate::data::views;
use crate::money::Money;
use vstd::prelude::*;

verus! {

/// A percentage for every cart line bought in at least a given quantity.
pub struct VolumeRule {
    pub quantity: i64,
    pub percentage: Money,
}

/// The view of a [`VolumeRule`].
pub struct VolumeRuleView {
    pub quantity: int,
    pub percentage: real,
}

impl View for VolumeRule {
    type V = VolumeRuleView;

    open spec fn view(&self) -> VolumeRuleView {
        VolumeRuleView { quantity: self.quantity as int, percentage: self.percentage@ }
    }
}

impl Default for VolumeRule {
    /// A rule that no ordinary cart meets, and that gives nothing.
    fn default() -> (r: VolumeRule)
        ensures
            r@ == (VolumeRuleView { quantity: 999, percentage: 0real }),
    {
        VolumeRule { quantity: 999, percentage: Money::zero() }
    }
}

impl VolumeRule {
    /// Ten percent from two units up.
    pub fn starter() -> (r: VolumeRule)
        ensures
            r@ == (VolumeRuleView { quantity: 2, percentage: 10real }),
    {
        VolumeRule { quantity: 2, percentage: Money::from_u64(10) }
    }
}

/// A percentage for an order whose subtotal is at least a given amount.
pub struct SubtotalRule {
    pub minimum_amount: i64,
    pub percentage: Money,
}

/// The view of a [`SubtotalRule`].
pub struct SubtotalRuleView {
    pub minimum_amount: int,
    pub percentage: real,
}

impl View for SubtotalRule {
    type V = SubtotalRuleView;

    open spec fn view(&self) -> SubtotalRuleView {
        SubtotalRuleView {
            minimum_amount: self.minimum_amount as int,
            percentage: self.percentage@,
        }
    }
}

impl Default for SubtotalRule {
    /// A rule with a minimum of 999 that gives nothing.
    fn default() -> (r: SubtotalRule)
        ensures
            r@ == (SubtotalRuleView { minimum_amount: 999, percentage: 0real }),
    {
        SubtotalRule { minimum_amount: 999, percentage: Money::zero() }
    }
}

/// A cart line as the volume rule sees it: an identifier and the quantity
/// bought.
pub struct QuantityLine {
    pub id: String,
    pub quantity: i64,
}

/// The view of a [`QuantityLine`].
pub struct QuantityLineView {
    pub id: Seq<char>,
    pub quantity: int,
}

impl View for QuantityLine {
    type V = QuantityLineView;

    open spec fn view(&self) -> QuantityLineView {
        QuantityLineView { id: self.id@, quantity: self.quantity as int }
    }
}

/// The identifiers of those of the first `n` lines whose quantity is at
/// least `threshold`, in cart order.
pub open spec fn qualifying(lines: Seq<QuantityLineView>, threshold: int, n: nat) -> Seq<Seq<char>>
    decreases n,
{
    if n == 0 {
        Seq::empty()
    } else {
        let before = qualifying(lines, threshold, (n - 1) as nat);
        if lines[n - 1].quantity >= threshold {
            before.push(lines[n - 1].id)
        } else {
            before
        }
    }
}

/// The identifiers of the cart lines whose quantity is at least `threshold`,
/// in cart order.
pub fn qualifying_lines(lines: &Vec<QuantityLine>, threshold: i64) -> (r: Vec<String>)
    ensures
        views(r@) == qualifying(views(lines@), threshold as int, lines@.len()),
{
    let mut out: Vec<String> = Vec::new();
    let mut i: usize = 0;
    while i < lines.len()
        invariant
            i <= lines.len(),
            views(out@) == qualifying(views(lines@), threshold as int, i as nat),
        decreases lines.len() - i,
    {
        if lines[i].quantity >= threshold {
            let id: String = lines[i].id.clone();
            assert(views(out@.push(id)) =~= views(out@).push(id@));
            out.push(id);
        }
        i += 1;
    }
    out
}

/// What the volume rule gives: a percentage for the named cart lines.
pub struct VolumeDiscount {
    pub targets: Vec<String>,
    pub percentage: Money,
}

/// The view of a [`VolumeDiscount`].
pub struct VolumeDiscountView {
    pub targets: Seq<Seq<char>>,
    pub percentage: real,
}

impl View for VolumeDiscount {
    type V = VolumeDiscountView;

    open spec fn view(&self) -> VolumeDiscountView {
        VolumeDiscountView { targets: views(self.targets@), percentage: self.percentage@ }
    }
}

/// What the volume rule gives on a cart: nothing where no rule is set or no
/// line is bought in the rule's quantity; else the rule's percentage for all
/// lines that are.
pub open spec fn volume_outcome(lines: Seq<QuantityLineView>, rule: Option<VolumeRuleView>) -> Option<
    VolumeDiscountView,
> {
    match rule {
        None => None,
        Some(set) => {
            let targets = qualifying(lines, set.quantity, lines.len());
            if targets.len() == 0 {
                None
            } else {
                Some(VolumeDiscountView { targets, percentage: set.percentage })
            }
        },
    }
}

/// Applies the volume rule to a cart.
pub fn volume_discount(lines: &Vec<QuantityLine>, rule: Option<&VolumeRule>) -> (r: Option<
    VolumeDiscount,
>)
    ensures
        match (r, volume_outcome(
            views(lines@),
            match rule {
                Some(set) => Some(set@),
                None => None,
            },
        )) {
            (Some(given), Some(owed)) => given@ == owed,
            (None, None) => true,
            _ => false,
        },
{
    match rule {
        None => None,
        Some(set) => {
            let targets: Vec<String> = qualifying_lines(lines, set.quantity);
            if targets.len() == 0 {
                None
            } else {
                Some(VolumeDiscount { targets, percentage: set.percentage.duplicate() })
            }
        },
    }
}

/// What the subtotal rule gives: a percentage for the order's subtotal, on
/// the condition that the subtotal reaches the minimum.
pub struct SubtotalDiscount {
    pub minimum_amount: i64,
    pub percentage: Money,
}

impl SubtotalDiscount {
    /// The message that goes with the discount.
    pub fn message(&self) -> (r: &'static str)
        ensures
            r@ == "Discount applied"@,
    {
        "Discount applied"
    }
}

/// Applies the subtotal rule: nothing where no rule is set; else the rule's
/// percentage under the rule's minimum.
pub fn subtotal_discount(rule: Option<&SubtotalRule>) -> (r: Option<SubtotalDiscount>)
    ensures
        match (r, rule) {
            (Some(given), Some(set)) => given.minimum_amount == set.minimum_amount
                && given.percentage@ == set.percentage@,
            (None, None) => true,
            _ => false,
        },
{
    match rule {
        None => None,
        Some(set) => Some(
            SubtotalDiscount {
                minimum_amount: set.minimum_amount,
                percentage: set.percentage.duplicate(),
            },
        ),
    }
}

} // verus!
