use discount_allocator::data::{
    Allocation, CapNotice, CapReason, Cart, CartLine, Discount, DiscountProposal, DiscountValue,
    Fault, Target,
};
use discount_allocator::engine::{allocate, collapse_notices};
use discount_allocator::money::Money;

fn line(id: &str, quantity: i64, price: u64) -> CartLine {
    CartLine { id: id.to_string(), quantity, unit_price: Money::from_u64(price) }
}

fn target(id: &str, quantity: i64) -> Target {
    Target { cart_line_id: id.to_string(), quantity }
}

fn percentage(handle: &str, value: u64, targets: Vec<Target>) -> DiscountProposal {
    DiscountProposal {
        handle: handle.to_string(),
        value: DiscountValue::Percentage { value: Money::from_u64(value) },
        targets,
    }
}

fn fixed(handle: &str, amount: u64, each: bool, targets: Vec<Target>) -> DiscountProposal {
    DiscountProposal {
        handle: handle.to_string(),
        value: DiscountValue::FixedAmount {
            amount: Money::from_u64(amount),
            applies_to_each_item: each,
        },
        targets,
    }
}

fn discount(id: &str, cap: Option<u64>, proposals: Vec<DiscountProposal>) -> Discount {
    Discount { id: id.to_string(), cap: cap.map(Money::from_u64), proposals }
}

fn cart(lines: Vec<CartLine>, cap: Option<u64>) -> Cart {
    Cart { lines, cap: cap.map(Money::from_u64) }
}

fn run(cart: &Cart, discounts: &Vec<Discount>) -> Allocation {
    match allocate(cart, discounts) {
        Ok(outcome) => outcome,
        Err(_) => panic!("the allocation failed"),
    }
}

fn is_amount(m: &Money, num: i64, den: u64) -> bool {
    m.equals(&Money::from_fraction(num, den).unwrap())
}

fn total(outcome: &Allocation) -> Money {
    let mut sum = Money::zero();
    for l in outcome.lines.iter() {
        for a in l.allocations.iter() {
            sum = sum.add(&a.amount);
        }
    }
    sum
}

fn notice_list(outcome: &Allocation) -> Vec<(String, CapReason)> {
    outcome.notices.iter().map(|n| (n.discount_id.clone(), n.reason)).collect()
}

#[test]
fn percentage_without_caps() {
    let c = cart(vec![line("line-0", 1, 100)], None);
    let d = vec![discount("d1", None, vec![percentage("offer-a", 10, vec![target("line-0", 1)])])];
    let out = run(&c, &d);
    assert_eq!(out.lines.len(), 1);
    assert_eq!(out.lines[0].cart_line_id, "line-0");
    assert_eq!(out.lines[0].quantity, 1);
    assert_eq!(out.lines[0].allocations.len(), 1);
    assert_eq!(out.lines[0].allocations[0].proposal_handle, "offer-a");
    assert!(is_amount(&out.lines[0].allocations[0].amount, 10, 1));
    assert_eq!(out.notices.len(), 0);
}

#[test]
fn discount_cap_clamps_the_amount() {
    let c = cart(vec![line("line-0", 1, 100)], None);
    let d = vec![discount("d1", Some(5), vec![percentage("offer-a", 10, vec![target("line-0", 1)])])];
    let out = run(&c, &d);
    assert_eq!(out.lines.len(), 1);
    assert_eq!(out.lines[0].allocations.len(), 1);
    assert!(is_amount(&out.lines[0].allocations[0].amount, 5, 1));
    assert_eq!(notice_list(&out), vec![("d1".to_string(), CapReason::DiscountCap)]);
}

#[test]
fn fixed_amount_is_split_by_price() {
    let c = cart(vec![line("line-0", 1, 50), line("line-1", 1, 150)], None);
    let d = vec![discount(
        "d1",
        None,
        vec![fixed("offer-a", 20, false, vec![target("line-0", 1), target("line-1", 1)])],
    )];
    let out = run(&c, &d);
    assert_eq!(out.lines.len(), 2);
    assert_eq!(out.lines[0].cart_line_id, "line-0");
    assert!(is_amount(&out.lines[0].allocations[0].amount, 5, 1));
    assert_eq!(out.lines[1].cart_line_id, "line-1");
    assert!(is_amount(&out.lines[1].allocations[0].amount, 15, 1));
    assert_eq!(out.notices.len(), 0);
}

#[test]
fn cart_cap_is_shared_by_all_discounts() {
    let c = cart(vec![line("line-0", 1, 100), line("line-1", 1, 100)], Some(8));
    let d = vec![
        discount("d1", None, vec![percentage("offer-a", 10, vec![target("line-0", 1)])]),
        discount(
            "d2",
            None,
            vec![fixed("offer-b", 5, true, vec![target("line-0", 1), target("line-1", 1)])],
        ),
    ];
    let out = run(&c, &d);
    assert_eq!(out.lines.len(), 1);
    assert_eq!(out.lines[0].cart_line_id, "line-0");
    assert_eq!(out.lines[0].allocations.len(), 1);
    assert_eq!(out.lines[0].allocations[0].proposal_handle, "offer-a");
    assert!(is_amount(&out.lines[0].allocations[0].amount, 8, 1));
    // One notice for the first discount; two for the second, one for each
    // target, which are neighbours and collapse into one.
    assert_eq!(
        notice_list(&out),
        vec![("d1".to_string(), CapReason::CartCap), ("d2".to_string(), CapReason::CartCap)]
    );
}

#[test]
fn zero_priced_proposal_is_passed_over() {
    let c = cart(vec![line("line-0", 1, 0)], None);
    let d = vec![discount("d1", Some(5), vec![percentage("offer-a", 10, vec![target("line-0", 1)])])];
    let out = run(&c, &d);
    assert_eq!(out.lines.len(), 0);
    assert_eq!(out.notices.len(), 0);
}

#[test]
fn zero_priced_proposal_is_passed_over_whatever_it_gives() {
    let c = cart(vec![line("line-0", 3, 0), line("line-1", 1, 40)], None);
    let d = vec![discount(
        "d1",
        None,
        vec![
            fixed("each", 7, true, vec![target("line-0", 3)]),
            fixed("split", 7, false, vec![target("line-0", 3)]),
            percentage("after", 50, vec![target("line-1", 1)]),
        ],
    )];
    let out = run(&c, &d);
    assert_eq!(out.lines.len(), 1);
    assert_eq!(out.lines[0].cart_line_id, "line-1");
    assert!(is_amount(&out.lines[0].allocations[0].amount, 20, 1));
}

#[test]
fn zero_priced_target_beside_a_priced_one_gets_nothing() {
    let c = cart(vec![line("free", 1, 0), line("paid", 1, 80)], None);
    let d = vec![discount(
        "d1",
        None,
        vec![fixed("offer-a", 10, false, vec![target("free", 1), target("paid", 1)])],
    )];
    let out = run(&c, &d);
    assert_eq!(out.lines.len(), 1);
    assert_eq!(out.lines[0].cart_line_id, "paid");
    assert!(is_amount(&out.lines[0].allocations[0].amount, 10, 1));
}

#[test]
fn fixed_amount_for_each_item_counts_the_quantity() {
    let c = cart(vec![line("line-0", 5, 30)], None);
    let d = vec![discount("d1", None, vec![fixed("offer-a", 4, true, vec![target("line-0", 3)])])];
    let out = run(&c, &d);
    assert!(is_amount(&out.lines[0].allocations[0].amount, 12, 1));
    assert_eq!(out.lines[0].quantity, 5);
}

#[test]
fn percentage_counts_the_target_quantity() {
    let c = cart(vec![line("line-0", 5, 30), line("line-1", 2, 10)], None);
    let d = vec![discount(
        "d1",
        None,
        vec![percentage("offer-a", 25, vec![target("line-0", 2), target("line-1", 2)])],
    )];
    let out = run(&c, &d);
    // 25% of 2 x 30 and of 2 x 10.
    assert!(is_amount(&out.lines[0].allocations[0].amount, 15, 1));
    assert!(is_amount(&out.lines[1].allocations[0].amount, 5, 1));
}

#[test]
fn split_that_does_not_divide_evenly_is_exact() {
    let c = cart(vec![line("a", 1, 1), line("b", 1, 2)], None);
    let d = vec![discount(
        "d1",
        None,
        vec![fixed("offer-a", 10, false, vec![target("a", 1), target("b", 1)])],
    )];
    let out = run(&c, &d);
    assert!(is_amount(&out.lines[0].allocations[0].amount, 10, 3));
    assert!(is_amount(&out.lines[1].allocations[0].amount, 20, 3));
    assert!(is_amount(&total(&out), 10, 1));
}

#[test]
fn both_caps_can_cut_the_same_amount() {
    let c = cart(vec![line("line-0", 1, 100)], Some(3));
    let d = vec![discount("d1", Some(5), vec![percentage("offer-a", 10, vec![target("line-0", 1)])])];
    let out = run(&c, &d);
    assert!(is_amount(&out.lines[0].allocations[0].amount, 3, 1));
    assert_eq!(
        notice_list(&out),
        vec![("d1".to_string(), CapReason::DiscountCap), ("d1".to_string(), CapReason::CartCap)]
    );
}

#[test]
fn amount_that_meets_the_cap_exactly_is_not_cut() {
    let c = cart(vec![line("line-0", 1, 100)], Some(10));
    let d = vec![discount("d1", Some(10), vec![percentage("offer-a", 10, vec![target("line-0", 1)])])];
    let out = run(&c, &d);
    assert!(is_amount(&out.lines[0].allocations[0].amount, 10, 1));
    assert_eq!(out.notices.len(), 0);
}

#[test]
fn cap_of_zero_gives_nothing_and_is_noticed() {
    let c = cart(vec![line("line-0", 1, 100)], None);
    let d = vec![discount("d1", Some(0), vec![percentage("offer-a", 10, vec![target("line-0", 1)])])];
    let out = run(&c, &d);
    assert_eq!(out.lines.len(), 0);
    assert_eq!(notice_list(&out), vec![("d1".to_string(), CapReason::DiscountCap)]);
}

#[test]
fn discount_cap_starts_anew_for_each_discount() {
    let c = cart(vec![line("line-0", 1, 100)], None);
    let d = vec![
        discount("d1", Some(4), vec![percentage("offer-a", 10, vec![target("line-0", 1)])]),
        discount("d2", Some(6), vec![percentage("offer-b", 10, vec![target("line-0", 1)])]),
    ];
    let out = run(&c, &d);
    assert_eq!(out.lines.len(), 1);
    assert_eq!(out.lines[0].allocations.len(), 2);
    assert_eq!(out.lines[0].allocations[0].proposal_handle, "offer-a");
    assert!(is_amount(&out.lines[0].allocations[0].amount, 4, 1));
    assert_eq!(out.lines[0].allocations[1].proposal_handle, "offer-b");
    assert!(is_amount(&out.lines[0].allocations[1].amount, 6, 1));
    assert_eq!(
        notice_list(&out),
        vec![("d1".to_string(), CapReason::DiscountCap), ("d2".to_string(), CapReason::DiscountCap)]
    );
}

#[test]
fn discount_cap_runs_across_the_proposals_of_a_discount() {
    let c = cart(vec![line("line-0", 1, 100), line("line-1", 1, 100)], None);
    let d = vec![discount(
        "d1",
        Some(15),
        vec![
            percentage("offer-a", 10, vec![target("line-0", 1)]),
            percentage("offer-b", 10, vec![target("line-1", 1)]),
        ],
    )];
    let out = run(&c, &d);
    assert!(is_amount(&out.lines[0].allocations[0].amount, 10, 1));
    assert!(is_amount(&out.lines[1].allocations[0].amount, 5, 1));
    assert!(is_amount(&total(&out), 15, 1));
    assert_eq!(notice_list(&out), vec![("d1".to_string(), CapReason::DiscountCap)]);
}

#[test]
fn allocated_total_stays_within_every_cap() {
    let c = cart(vec![line("a", 2, 40), line("b", 1, 25), line("c", 4, 10)], Some(30));
    let d = vec![
        discount(
            "d1",
            Some(12),
            vec![
                percentage("offer-a", 20, vec![target("a", 2), target("b", 1)]),
                fixed("offer-b", 9, false, vec![target("b", 1), target("c", 4)]),
            ],
        ),
        discount("d2", None, vec![fixed("offer-c", 6, true, vec![target("c", 4), target("a", 1)])]),
    ];
    let out = run(&c, &d);
    assert!(total(&out).le(&Money::from_u64(30)));
    let mut first = Money::zero();
    for l in out.lines.iter() {
        for a in l.allocations.iter() {
            assert!(a.amount.is_positive());
            if a.proposal_handle == "offer-a" || a.proposal_handle == "offer-b" {
                first = first.add(&a.amount);
            }
        }
    }
    assert!(first.le(&Money::from_u64(12)));
    assert!(is_amount(&first, 12, 1));
    assert!(is_amount(&total(&out), 30, 1));
}

#[test]
fn lines_without_allocations_are_left_out_and_order_is_kept() {
    let c = cart(vec![line("a", 1, 10), line("b", 1, 10), line("c", 1, 10)], None);
    let d = vec![discount(
        "d1",
        None,
        vec![percentage("offer-a", 10, vec![target("c", 1), target("a", 1)])],
    )];
    let out = run(&c, &d);
    assert_eq!(out.lines.len(), 2);
    assert_eq!(out.lines[0].cart_line_id, "a");
    assert_eq!(out.lines[1].cart_line_id, "c");
    for l in out.lines.iter() {
        assert!(l.allocations.len() > 0);
    }
}

#[test]
fn two_runs_on_the_same_input_agree() {
    let c = cart(vec![line("a", 2, 40), line("b", 1, 25)], Some(9));
    let d = vec![
        discount("d1", Some(7), vec![percentage("offer-a", 20, vec![target("a", 2), target("b", 1)])]),
        discount("d2", None, vec![fixed("offer-b", 6, true, vec![target("b", 1)])]),
    ];
    let one = run(&c, &d);
    let two = run(&c, &d);
    assert_eq!(one.lines.len(), two.lines.len());
    for (x, y) in one.lines.iter().zip(two.lines.iter()) {
        assert_eq!(x.cart_line_id, y.cart_line_id);
        assert_eq!(x.quantity, y.quantity);
        assert_eq!(x.allocations.len(), y.allocations.len());
        for (p, q) in x.allocations.iter().zip(y.allocations.iter()) {
            assert_eq!(p.proposal_handle, q.proposal_handle);
            assert!(p.amount.equals(&q.amount));
        }
    }
    assert_eq!(notice_list(&one), notice_list(&two));
}

#[test]
fn without_caps_everything_asked_for_is_given() {
    let c = cart(vec![line("a", 2, 40), line("b", 1, 25)], None);
    let d = vec![
        discount("d1", None, vec![percentage("offer-a", 20, vec![target("a", 2), target("b", 1)])]),
        discount("d2", None, vec![fixed("offer-b", 6, true, vec![target("b", 1), target("a", 2)])]),
        discount("d3", None, vec![fixed("offer-c", 13, false, vec![target("b", 1), target("a", 1)])]),
    ];
    let out = run(&c, &d);
    // 20% of 105, then 6 x 3, then 13.
    assert!(is_amount(&total(&out), 52, 1));
    assert_eq!(out.notices.len(), 0);
}

#[test]
fn allocations_of_a_line_come_in_the_order_granted() {
    let c = cart(vec![line("a", 1, 10)], None);
    let d = vec![
        discount("d1", None, vec![percentage("first", 10, vec![target("a", 1)])]),
        discount(
            "d2",
            None,
            vec![
                percentage("second", 20, vec![target("a", 1)]),
                percentage("third", 30, vec![target("a", 1)]),
            ],
        ),
    ];
    let out = run(&c, &d);
    let handles: Vec<String> =
        out.lines[0].allocations.iter().map(|a| a.proposal_handle.clone()).collect();
    assert_eq!(handles, vec!["first".to_string(), "second".to_string(), "third".to_string()]);
    assert!(is_amount(&out.lines[0].allocations[2].amount, 3, 1));
}

#[test]
fn unknown_line_is_a_fault() {
    let c = cart(vec![line("a", 1, 10)], None);
    let d = vec![discount("d1", None, vec![percentage("offer-a", 10, vec![target("zz", 1)])])];
    assert!(matches!(allocate(&c, &d), Err(Fault::UnresolvedTarget)));
}

#[test]
fn unknown_line_in_a_later_discount_is_a_fault() {
    let c = cart(vec![line("a", 1, 10)], None);
    let d = vec![
        discount("d1", None, vec![percentage("offer-a", 10, vec![target("a", 1)])]),
        discount("d2", None, vec![percentage("offer-a", 10, vec![target("a", 1), target("b", 1)])]),
    ];
    assert!(matches!(allocate(&c, &d), Err(Fault::UnresolvedTarget)));
}

#[test]
fn line_held_twice_is_a_fault() {
    let c = cart(vec![line("a", 1, 10), line("a", 2, 20)], None);
    let d = vec![discount("d1", None, vec![percentage("offer-a", 10, vec![target("a", 1)])])];
    assert!(matches!(allocate(&c, &d), Err(Fault::UnresolvedTarget)));
}

#[test]
fn lines_are_found_by_identifier_in_any_order() {
    let c = cart(vec![line("gid://shopify/CartLine/7", 1, 10), line("x", 1, 30)], None);
    let d = vec![discount(
        "d1",
        None,
        vec![percentage("offer-a", 10, vec![target("x", 1), target("gid://shopify/CartLine/7", 1)])],
    )];
    let out = run(&c, &d);
    assert_eq!(out.lines[0].cart_line_id, "gid://shopify/CartLine/7");
    assert!(is_amount(&out.lines[0].allocations[0].amount, 1, 1));
    assert!(is_amount(&out.lines[1].allocations[0].amount, 3, 1));
}

#[test]
fn no_discounts_give_nothing() {
    let c = cart(vec![line("a", 1, 10)], Some(5));
    let out = run(&c, &Vec::new());
    assert_eq!(out.lines.len(), 0);
    assert_eq!(out.notices.len(), 0);
}

fn notice(id: &str, reason: CapReason) -> CapNotice {
    CapNotice { discount_id: id.to_string(), reason }
}

#[test]
fn only_neighbouring_repeats_collapse() {
    let given = vec![
        notice("d1", CapReason::CartCap),
        notice("d1", CapReason::CartCap),
        notice("d1", CapReason::CartCap),
        notice("d2", CapReason::CartCap),
        notice("d1", CapReason::CartCap),
        notice("d1", CapReason::DiscountCap),
        notice("d1", CapReason::DiscountCap),
    ];
    let out: Vec<(String, CapReason)> =
        collapse_notices(&given).iter().map(|n| (n.discount_id.clone(), n.reason)).collect();
    assert_eq!(
        out,
        vec![
            ("d1".to_string(), CapReason::CartCap),
            ("d2".to_string(), CapReason::CartCap),
            ("d1".to_string(), CapReason::CartCap),
            ("d1".to_string(), CapReason::DiscountCap),
        ]
    );
    assert_eq!(collapse_notices(&Vec::new()).len(), 0);
}

#[test]
fn repeats_that_are_not_neighbours_stay_in_an_allocation() {
    let c = cart(vec![line("a", 1, 100)], Some(1));
    let d = vec![
        discount("d1", Some(1), vec![percentage("offer-a", 10, vec![target("a", 1)])]),
        discount("d1", Some(1), vec![percentage("offer-b", 10, vec![target("a", 1), target("a", 1)])]),
    ];
    let out = run(&c, &d);
    // The first offer is cut to 1 by its discount. Each target of the second is cut to 1 by its
    // discount and then to nothing by the cart. The two neighbouring notices
    // of the discount cap collapse; the later repeats stay.
    assert_eq!(
        notice_list(&out),
        vec![
            ("d1".to_string(), CapReason::DiscountCap),
            ("d1".to_string(), CapReason::CartCap),
            ("d1".to_string(), CapReason::DiscountCap),
            ("d1".to_string(), CapReason::CartCap),
        ]
    );
    assert_eq!(out.notices.len(), 4);
    assert!(is_amount(&total(&out), 1, 1));
}

#[test]
fn reasons_have_their_messages() {
    assert_eq!(CapReason::CartCap.message(), "Maximum discount limit reached for this cart");
    assert_eq!(
        CapReason::DiscountCap.message(),
        "Maximum discount limit reached for this discount"
    );
}

#[test]
fn cap_below_zero_sets_no_limit() {
    let c = Cart { lines: vec![line("a", 1, 100)], cap: Some(Money::from_i64(-1)) };
    let d = vec![Discount {
        id: "d1".to_string(),
        cap: Some(Money::from_i64(-1)),
        proposals: vec![percentage("offer-a", 10, vec![target("a", 1)])],
    }];
    let out = run(&c, &d);
    assert!(is_amount(&out.lines[0].allocations[0].amount, 10, 1));
    assert_eq!(out.notices.len(), 0);
}

#[test]
fn amounts_below_zero_are_not_recorded() {
    let c = cart(vec![line("a", 1, 100), line("b", 1, 100)], None);
    let d = vec![discount(
        "d1",
        None,
        vec![
            DiscountProposal {
                handle: "surcharge".to_string(),
                value: DiscountValue::FixedAmount {
                    amount: Money::from_i64(-5),
                    applies_to_each_item: true,
                },
                targets: vec![target("a", 1)],
            },
            percentage("returned", 10, vec![target("b", -1)]),
            percentage("kept", 10, vec![target("b", 1)]),
        ],
    )];
    let out = run(&c, &d);
    assert_eq!(out.lines.len(), 1);
    assert_eq!(out.lines[0].cart_line_id, "b");
    assert_eq!(out.lines[0].allocations.len(), 1);
    assert_eq!(out.lines[0].allocations[0].proposal_handle, "kept");
    assert!(is_amount(&out.lines[0].allocations[0].amount, 10, 1));
    assert_eq!(out.notices.len(), 0);
}

#[test]
fn quantities_that_cancel_leave_no_total() {
    let c = cart(vec![line("a", 1, 100)], None);
    let d = vec![discount(
        "d1",
        None,
        vec![fixed("offer-a", 10, false, vec![target("a", 2), target("a", -2)])],
    )];
    let out = run(&c, &d);
    assert_eq!(out.lines.len(), 0);
    assert_eq!(out.notices.len(), 0);
}
