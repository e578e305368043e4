//! The values that go into an allocation and the values that come out of it,
//! each with the mathematical view that the contracts speak of.

use crate::money::Money;
use vstd::prelude::*;

verus! {

/// The views of the elements of a sequence, in order.
pub open spec fn views<T: View>(items: Seq<T>) -> Seq<T::V> {
    Seq::new(items.len(), |i: int| items[i]@)
}

/// The view of an optional cap.
pub open spec fn cap_view(cap: Option<Money>) -> Option<real> {
    match cap {
        Some(limit) => Some(limit@),
        None => None,
    }
}

/// One line of a cart.
pub struct CartLine {
    pub id: String,
    pub quantity: i64,
    pub unit_price: Money,
}

/// The view of a [`CartLine`].
pub struct CartLineView {
    pub id: Seq<char>,
    pub quantity: int,
    pub unit_price: real,
}

impl View for CartLine {
    type V = CartLineView;

    open spec fn view(&self) -> CartLineView {
        CartLineView { id: self.id@, quantity: self.quantity as int, unit_price: self.unit_price@ }
    }
}

/// A cart: its lines in order, and the cap on everything allocated to it.
pub struct Cart {
    pub lines: Vec<CartLine>,
    pub cap: Option<Money>,
}

/// The view of a [`Cart`].
pub struct CartView {
    pub lines: Seq<CartLineView>,
    pub cap: Option<real>,
}

impl View for Cart {
    type V = CartView;

    open spec fn view(&self) -> CartView {
        CartView { lines: views(self.lines@), cap: cap_view(self.cap) }
    }
}

/// A reference from a proposal to a cart line, with the quantity of that line
/// that the proposal applies to.
pub struct Target {
    pub cart_line_id: String,
    pub quantity: i64,
}

/// The view of a [`Target`].
pub struct TargetView {
    pub cart_line_id: Seq<char>,
    pub quantity: int,
}

impl View for Target {
    type V = TargetView;

    open spec fn view(&self) -> TargetView {
        TargetView { cart_line_id: self.cart_line_id@, quantity: self.quantity as int }
    }
}

/// What a proposal gives.
pub enum DiscountValue {
    /// A fixed amount: given once for each unit of each target, or split over
    /// the targets in proportion to their price.
    FixedAmount { amount: Money, applies_to_each_item: bool },
    /// A percentage of the targeted price.
    Percentage { value: Money },
}

/// The view of a [`DiscountValue`].
pub enum DiscountValueView {
    FixedAmount { amount: real, applies_to_each_item: bool },
    Percentage { value: real },
}

impl View for DiscountValue {
    type V = DiscountValueView;

    open spec fn view(&self) -> DiscountValueView {
        match *self {
            DiscountValue::FixedAmount { amount, applies_to_each_item } => {
                DiscountValueView::FixedAmount { amount: amount@, applies_to_each_item }
            },
            DiscountValue::Percentage { value } => DiscountValueView::Percentage { value: value@ },
        }
    }
}

/// One rule of a discount: a value and the targets it is spread over.
pub struct DiscountProposal {
    pub handle: String,
    pub value: DiscountValue,
    pub targets: Vec<Target>,
}

/// The view of a [`DiscountProposal`].
pub struct DiscountProposalView {
    pub handle: Seq<char>,
    pub value: DiscountValueView,
    pub targets: Seq<TargetView>,
}

impl View for DiscountProposal {
    type V = DiscountProposalView;

    open spec fn view(&self) -> DiscountProposalView {
        DiscountProposalView {
            handle: self.handle@,
            value: self.value@,
            targets: views(self.targets@),
        }
    }
}

/// A discount: its proposals in order, and the cap on what it may allocate.
pub struct Discount {
    pub id: String,
    pub cap: Option<Money>,
    pub proposals: Vec<DiscountProposal>,
}

/// The view of a [`Discount`].
pub struct DiscountView {
    pub id: Seq<char>,
    pub cap: Option<real>,
    pub proposals: Seq<DiscountProposalView>,
}

impl View for Discount {
    type V = DiscountView;

    open spec fn view(&self) -> DiscountView {
        DiscountView { id: self.id@, cap: cap_view(self.cap), proposals: views(self.proposals@) }
    }
}

/// An amount given to a cart line on behalf of a proposal.
pub struct LineAllocation {
    pub proposal_handle: String,
    pub amount: Money,
}

/// The view of a [`LineAllocation`].
pub struct LineAllocationView {
    pub proposal_handle: Seq<char>,
    pub amount: real,
}

impl View for LineAllocation {
    type V = LineAllocationView;

    open spec fn view(&self) -> LineAllocationView {
        LineAllocationView { proposal_handle: self.proposal_handle@, amount: self.amount@ }
    }
}

impl LineAllocation {
    /// A copy of this allocation.
    pub fn duplicate(&self) -> (r: LineAllocation)
        ensures
            r@ == self@,
    {
        LineAllocation {
            proposal_handle: self.proposal_handle.clone(),
            amount: self.amount.duplicate(),
        }
    }
}

/// A cart line together with everything that was allocated to it.
pub struct LineResult {
    pub cart_line_id: String,
    pub quantity: i64,
    pub allocations: Vec<LineAllocation>,
}

/// The view of a [`LineResult`].
pub struct LineResultView {
    pub cart_line_id: Seq<char>,
    pub quantity: int,
    pub allocations: Seq<LineAllocationView>,
}

impl View for LineResult {
    type V = LineResultView;

    open spec fn view(&self) -> LineResultView {
        LineResultView {
            cart_line_id: self.cart_line_id@,
            quantity: self.quantity as int,
            allocations: views(self.allocations@),
        }
    }
}

/// Which cap cut an amount short.
#[derive(Clone, Copy, Debug, PartialEq, Eq, Structural)]
pub enum CapReason {
    DiscountCap,
    CartCap,
}

impl CapReason {
    /// The message shown for this reason.
    pub fn message(&self) -> (r: &'static str)
        ensures
            r@ == match *self {
                CapReason::DiscountCap => "Maximum discount limit reached for this discount"@,
                CapReason::CartCap => "Maximum discount limit reached for this cart"@,
            },
    {
        match self {
            CapReason::DiscountCap => "Maximum discount limit reached for this discount",
            CapReason::CartCap => "Maximum discount limit reached for this cart",
        }
    }
}

/// A record that a cap cut short what a discount would have given.
pub struct CapNotice {
    pub discount_id: String,
    pub reason: CapReason,
}

/// The view of a [`CapNotice`].
pub struct CapNoticeView {
    pub discount_id: Seq<char>,
    pub reason: CapReason,
}

impl View for CapNotice {
    type V = CapNoticeView;

    open spec fn view(&self) -> CapNoticeView {
        CapNoticeView { discount_id: self.discount_id@, reason: self.reason }
    }
}

impl CapNotice {
    /// A copy of this notice.
    pub fn duplicate(&self) -> (r: CapNotice)
        ensures
            r@ == self@,
    {
        CapNotice { discount_id: self.discount_id.clone(), reason: self.reason }
    }

    /// Whether two notices name the same discount and the same reason.
    pub fn same_as(&self, other: &CapNotice) -> (r: bool)
        ensures
            r == (self@ == other@),
    {
        self.discount_id == other.discount_id && self.reason == other.reason
    }
}

/// The outcome of an allocation: the lines that received something, in cart
/// order, and the notices of the caps that were hit.
pub struct Allocation {
    pub lines: Vec<LineResult>,
    pub notices: Vec<CapNotice>,
}

/// The view of an [`Allocation`].
pub struct AllocationView {
    pub lines: Seq<LineResultView>,
    pub notices: Seq<CapNoticeView>,
}

impl View for Allocation {
    type V = AllocationView;

    open spec fn view(&self) -> AllocationView {
        AllocationView { lines: views(self.lines@), notices: views(self.notices@) }
    }
}

/// Why an allocation could not be made at all.
#[derive(Clone, Copy, Debug, PartialEq, Eq, Structural)]
pub enum Fault {
    /// A cap is written in a way that is no decimal number.
    MalformedCap,
    /// A target names a cart line that the cart does not hold exactly once.
    UnresolvedTarget,
}

} // verus!
