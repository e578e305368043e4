//! One whole invocation: the caps are read from the text they arrive as, and
//! the discounts are then allocated over the cart.

use crate::data::{
    views, Allocation, Cart, CartLine, CartLineView, CartView, Discount, DiscountProposal,
    DiscountProposalView, DiscountView, Fault,
};
use crate::decimal::{cap_meaning, parse_cap};
use crate::engine::allocate;
use crate::model::{all_resolvable, allocation};
use crate::money::Money;
use vstd::prelude::*;
use vstd::utf8::encode_utf8;

verus! {

/// The bytes of an optional text.
pub open spec fn written(text: Option<String>) -> Option<Seq<u8>> {
    match text {
        Some(held) => Some(encode_utf8(held@)),
        None => None,
    }
}

/// What an optional cap text means: `None` where it is no decimal; else the
/// cap, with an absent text and a number below zero both read as no cap.
pub open spec fn cap_read(text: Option<Seq<u8>>) -> Option<Option<real>> {
    match text {
        Some(bytes) => cap_meaning(bytes),
        None => Some(None),
    }
}

/// A discount as it arrives: its cap is still text.
pub struct DiscountRequest {
    pub id: String,
    pub cap: Option<String>,
    pub proposals: Vec<DiscountProposal>,
}

/// The view of a [`DiscountRequest`].
pub struct DiscountRequestView {
    pub id: Seq<char>,
    pub cap: Option<Seq<u8>>,
    pub proposals: Seq<DiscountProposalView>,
}

impl View for DiscountRequest {
    type V = DiscountRequestView;

    open spec fn view(&self) -> DiscountRequestView {
        DiscountRequestView {
            id: self.id@,
            cap: written(self.cap),
            proposals: views(self.proposals@),
        }
    }
}

/// Everything that one invocation is given.
pub struct Request {
    /// The cap on everything allocated to the cart, as text.
    pub cap: Option<String>,
    pub lines: Vec<CartLine>,
    pub discounts: Vec<DiscountRequest>,
}

/// The view of a [`Request`].
pub struct RequestView {
    pub cap: Option<Seq<u8>>,
    pub lines: Seq<CartLineView>,
    pub discounts: Seq<DiscountRequestView>,
}

impl View for Request {
    type V = RequestView;

    open spec fn view(&self) -> RequestView {
        RequestView {
            cap: written(self.cap),
            lines: views(self.lines@),
            discounts: views(self.discounts@),
        }
    }
}

/// Every cap of the request can be read.
pub open spec fn caps_readable(request: RequestView) -> bool {
    &&& cap_read(request.cap) is Some
    &&& forall|d: int|
        0 <= d < request.discounts.len() ==> cap_read((#[trigger] request.discounts[d]).cap) is Some
}

/// The cart of a request whose caps can be read.
pub open spec fn cart_read(request: RequestView) -> CartView {
    CartView { lines: request.lines, cap: cap_read(request.cap).unwrap() }
}

/// A discount whose cap can be read.
pub open spec fn discount_read(discount: DiscountRequestView) -> DiscountView {
    DiscountView {
        id: discount.id,
        cap: cap_read(discount.cap).unwrap(),
        proposals: discount.proposals,
    }
}

/// The discounts of a request whose caps can be read.
pub open spec fn discounts_read(request: RequestView) -> Seq<DiscountView> {
    Seq::new(request.discounts.len(), |d: int| discount_read(request.discounts[d]))
}

/// Whether `result` is what running `request` must give. A cap that cannot
/// be read is a fault, whatever else the request holds; with all caps read,
/// a target that names no line, or more than one, is a fault; and else the
/// result is the one allocation that the model names.
pub open spec fn run_outcome(request: RequestView, result: Result<Allocation, Fault>) -> bool {
    match result {
        Ok(outcome) => {
            &&& caps_readable(request)
            &&& all_resolvable(request.lines, discounts_read(request))
            &&& outcome@ == allocation(cart_read(request), discounts_read(request))
        },
        Err(Fault::MalformedCap) => !caps_readable(request),
        Err(Fault::UnresolvedTarget) => {
            &&& caps_readable(request)
            &&& !all_resolvable(request.lines, discounts_read(request))
        },
    }
}

/// Reads an optional cap text.
pub fn read_cap(text: &Option<String>) -> (r: Result<Option<Money>, Fault>)
    ensures
        match cap_read(written(*text)) {
            None => r == Err::<Option<Money>, Fault>(Fault::MalformedCap),
            Some(None) => r == Ok::<Option<Money>, Fault>(None),
            Some(Some(limit)) => r matches Ok(Some(cap)) && cap@ == limit,
        },
{
    match text {
        Some(held) => parse_cap(Some(held.as_str())),
        None => parse_cap(None),
    }
}

/// Runs one invocation: reads the cart's cap and each discount's cap, and
/// allocates the discounts over the cart.
pub fn run(request: Request) -> (r: Result<Allocation, Fault>)
    ensures
        run_outcome(request@, r),
{
    let ghost given = request@;
    let cart_cap: Option<Money> = match read_cap(&request.cap) {
        Ok(cap) => cap,
        Err(fault) => {
            return Err(fault);
        },
    };
    let mut discounts: Vec<Discount> = Vec::new();
    for item in it: request.discounts
        invariant
            it.seq() == request.discounts@,
            given == request@,
            discounts@.len() == it.index(),
            forall|d: int|
                0 <= d < it.index() ==> cap_read((#[trigger] given.discounts[d]).cap) is Some,
            forall|d: int|
                0 <= d < it.index() ==> (#[trigger] discounts@[d])@ == discount_read(
                    given.discounts[d],
                ),
    {
        assert(given.discounts[it.index()] == item@);
        match read_cap(&item.cap) {
            Ok(cap) => {
                discounts.push(Discount { id: item.id, cap, proposals: item.proposals });
            },
            Err(fault) => {
                return Err(fault);
            },
        }
    }
    assert(views(discounts@) =~= discounts_read(given));
    let cart = Cart { lines: request.lines, cap: cart_cap };
    assert(cart@ == cart_read(given));
    allocate(&cart, &discounts)
}

} // verus!
