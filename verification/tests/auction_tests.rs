use rust_decimal::Decimal;
use std::str::FromStr;
use village_model::auction::{
    run_auction, AuctionError, AuctionSuccess, FinalBalance, FinalFill, Order, OrderId, OrderType,
    Participant, ParticipantId, ResourceId,
};
use village_model::decimal::Dec;

const ALICE: u32 = 1;
const BOB: u32 = 2;
const CAROL: u32 = 3;
const DAVID: u32 = 4;

fn d(s: &str) -> Dec {
    let x = Decimal::from_str(s).unwrap();
    Dec { mantissa: x.mantissa(), scale: x.scale() }
}

fn val(x: Dec) -> Decimal {
    Decimal::from_i128_with_scale(x.mantissa, x.scale)
}

fn create_participants(list: Vec<(u32, Dec)>) -> Vec<Participant> {
    list.into_iter()
        .map(|(id, currency)| Participant { id: ParticipantId(id), currency })
        .collect()
}

fn create_order(id: usize, p_id: u32, r_id: &str, order_type: OrderType, qty: u64, price: Dec, ts: u64) -> Order {
    Order {
        id: OrderId(id),
        participant_id: ParticipantId(p_id),
        resource_id: ResourceId(r_id.to_string()),
        order_type,
        original_quantity: qty,
        effective_quantity: qty,
        limit_price: price,
        timestamp: ts,
    }
}

fn price_of(success: &AuctionSuccess, resource: &str) -> Option<Decimal> {
    success.clearing_price(&ResourceId(resource.to_string())).map(val)
}

fn fill<'a>(success: &'a AuctionSuccess, order: usize) -> Option<&'a FinalFill> {
    success.final_fills.iter().find(|f| f.order_id == OrderId(order))
}

fn balance<'a>(success: &'a AuctionSuccess, p: u32) -> &'a FinalBalance {
    success.final_balances.iter().find(|b| b.participant_id == ParticipantId(p)).unwrap()
}

fn dd(s: &str) -> Decimal {
    Decimal::from_str(s).unwrap()
}

#[test]
fn test_simple_match_sufficient_funds_decimal() {
    let orders = vec![
        create_order(1, ALICE, "CPU", OrderType::Ask, 10, d("100.0"), 1),
        create_order(2, BOB, "CPU", OrderType::Bid, 5, d("110.0"), 2),
    ];
    let participants = create_participants(vec![(ALICE, d("1000.0")), (BOB, d("1000.0"))]);
    let result = run_auction(orders, participants, 5, Vec::new());
    match result {
        Ok(success) => {
            assert_eq!(price_of(&success, "CPU"), Some(dd("110.0")));
            assert_eq!(success.final_fills.len(), 2);
            let fill_alice = fill(&success, 1).unwrap();
            let fill_bob = fill(&success, 2).unwrap();
            assert_eq!(fill_alice.filled_quantity, 5);
            assert_eq!(fill_bob.filled_quantity, 5);
            assert_eq!(val(fill_alice.price), dd("110.0"));
            assert_eq!(val(fill_bob.price), dd("110.0"));
            assert_eq!(val(balance(&success, ALICE).final_currency), dd("1550.0"));
            assert_eq!(val(balance(&success, BOB).final_currency), dd("450.0"));
        }
        Err(e) => panic!("Auction should have succeeded, failed with {:?}", e),
    }
}

#[test]
fn test_no_match_price_gap_decimal() {
    let orders = vec![
        create_order(1, ALICE, "CPU", OrderType::Ask, 10, d("110.0"), 1),
        create_order(2, BOB, "CPU", OrderType::Bid, 5, d("100.0"), 2),
    ];
    let participants = create_participants(vec![(ALICE, d("1000.0")), (BOB, d("1000.0"))]);
    let result = run_auction(orders, participants, 5, Vec::new());
    match result {
        Ok(success) => {
            assert!(price_of(&success, "CPU").is_none());
            assert!(success.final_fills.is_empty());
            assert_eq!(val(balance(&success, ALICE).final_currency), dd("1000.0"));
            assert_eq!(val(balance(&success, BOB).final_currency), dd("1000.0"));
        }
        Err(e) => panic!("Auction should have succeeded (with no trades), failed with {:?}", e),
    }
}

#[test]
fn test_budget_constraint_pruning_decimal() {
    let orders = vec![
        create_order(1, ALICE, "CPU", OrderType::Ask, 10, d("100.0"), 1),
        create_order(2, BOB, "CPU", OrderType::Bid, 8, d("110.0"), 2),
        create_order(3, CAROL, "RAM", OrderType::Ask, 5, d("50.0"), 3),
        create_order(4, BOB, "RAM", OrderType::Bid, 4, d("60.0"), 4),
    ];
    let participants = create_participants(vec![
        (ALICE, d("1000.0")),
        (BOB, d("700.0")),
        (CAROL, d("1000.0")),
    ]);
    let result = run_auction(orders, participants, 5, Vec::new());
    match result {
        Ok(success) => {
            assert_eq!(price_of(&success, "CPU"), Some(dd("110.0")));
            assert_eq!(price_of(&success, "RAM"), Some(dd("60.0")));
            assert_eq!(success.final_fills.len(), 4);
            assert_eq!(fill(&success, 2).unwrap().filled_quantity, 5);
            assert_eq!(fill(&success, 4).unwrap().filled_quantity, 2);
            assert_eq!(fill(&success, 1).unwrap().filled_quantity, 5);
            assert_eq!(fill(&success, 3).unwrap().filled_quantity, 2);
            assert_eq!(val(balance(&success, BOB).final_currency), dd("30.0"));
            assert_eq!(val(balance(&success, ALICE).final_currency), dd("1550.0"));
            assert_eq!(val(balance(&success, CAROL).final_currency), dd("1120.0"));
        }
        Err(e) => panic!("Auction should have succeeded after pruning, failed with {:?}", e),
    }
}

#[test]
fn test_price_time_priority_decimal() {
    let orders = vec![
        create_order(1, ALICE, "GPU", OrderType::Ask, 5, d("500.0"), 10),
        create_order(2, BOB, "GPU", OrderType::Bid, 3, d("510.0"), 5),
        create_order(3, CAROL, "GPU", OrderType::Bid, 4, d("500.0"), 8),
        create_order(4, DAVID, "GPU", OrderType::Bid, 2, d("500.0"), 12),
    ];
    let participants = create_participants(vec![
        (ALICE, d("10000.0")),
        (BOB, d("10000.0")),
        (CAROL, d("10000.0")),
        (DAVID, d("10000.0")),
    ]);
    let result = run_auction(orders, participants, 5, Vec::new());
    match result {
        Ok(success) => {
            assert_eq!(price_of(&success, "GPU"), Some(dd("500.0")));
            assert_eq!(success.final_fills.len(), 3);
            assert_eq!(fill(&success, 1).unwrap().filled_quantity, 5);
            let fill_bob = fill(&success, 2);
            let fill_carol = fill(&success, 3);
            let fill_david = fill(&success, 4);
            assert!(fill_bob.is_some());
            assert_eq!(fill_bob.unwrap().filled_quantity, 3);
            assert!(fill_carol.is_some());
            assert_eq!(fill_carol.unwrap().filled_quantity, 2);
            assert!(fill_david.is_none());
        }
        Err(e) => panic!("Auction should have succeeded, failed with {:?}", e),
    }
}

#[test]
fn test_max_iterations_failure_decimal() {
    let orders = vec![
        create_order(1, ALICE, "A", OrderType::Ask, 10, d("10.0"), 1),
        create_order(2, BOB, "A", OrderType::Bid, 5, d("11.0"), 2),
        create_order(3, ALICE, "B", OrderType::Bid, 6, d("10.0"), 3),
        create_order(4, BOB, "B", OrderType::Ask, 8, d("9.0"), 4),
    ];
    let participants = create_participants(vec![(ALICE, d("55.0")), (BOB, d("45.0"))]);
    let result_iter_0 = run_auction(orders, participants, 0, Vec::new());
    match result_iter_0 {
        Ok(_) => panic!("Auction should have failed with max_iterations = 0"),
        Err(e) => assert!(matches!(e, AuctionError::MaxIterationsReached)),
    }
}

#[test]
fn test_barter_simple_direct_decimal() {
    let orders = vec![
        create_order(1, ALICE, "X", OrderType::Ask, 1, d("100.0"), 1),
        create_order(2, BOB, "X", OrderType::Bid, 1, d("100.0"), 2),
        create_order(3, ALICE, "Y", OrderType::Bid, 1, d("100.0"), 3),
        create_order(4, BOB, "Y", OrderType::Ask, 1, d("100.0"), 4),
    ];
    let participants = create_participants(vec![(ALICE, d("0.0")), (BOB, d("0.0"))]);
    let result = run_auction(orders, participants, 5, Vec::new());
    match result {
        Ok(success) => {
            assert_eq!(price_of(&success, "X"), Some(dd("100.0")));
            assert_eq!(price_of(&success, "Y"), Some(dd("100.0")));
            assert_eq!(success.final_fills.len(), 4);
            assert_eq!(val(balance(&success, ALICE).final_currency), dd("0.0"));
            assert_eq!(val(balance(&success, BOB).final_currency), dd("0.0"));
        }
        Err(e) => panic!("Barter auction should have succeeded, failed with {:?}", e),
    }
}

#[test]
fn test_barter_exact_fraction_decimal() {
    let price_y_exact = d("3.50");
    let orders = vec![
        create_order(1, ALICE, "X", OrderType::Ask, 1, d("10.50"), 1),
        create_order(2, BOB, "X", OrderType::Bid, 1, d("10.50"), 2),
        create_order(3, ALICE, "Y", OrderType::Bid, 3, price_y_exact, 3),
        create_order(4, BOB, "Y", OrderType::Ask, 3, price_y_exact, 4),
    ];
    let participants = create_participants(vec![(ALICE, d("0.0")), (BOB, d("0.0"))]);
    let result = run_auction(orders, participants, 5, Vec::new());
    match result {
        Ok(success) => {
            assert_eq!(price_of(&success, "X"), Some(dd("10.50")));
            assert_eq!(price_of(&success, "Y"), Some(val(price_y_exact)));
            assert_eq!(success.final_fills.len(), 4);
            let alice = val(balance(&success, ALICE).final_currency);
            let bob = val(balance(&success, BOB).final_currency);
            assert_eq!(alice, dd("0.0"), "Alice final balance {} not zero", alice);
            assert_eq!(bob, dd("0.0"), "Bob final balance {} not zero", bob);
        }
        Err(e) => panic!("Barter auction with exact Decimal fractions failed: {:?}", e),
    }
}

#[test]
fn test_multi_resource_clearing() {
    let orders = vec![
        create_order(1, ALICE, "wood", OrderType::Bid, 10, d("15.0"), 1),
        create_order(2, BOB, "wood", OrderType::Ask, 10, d("12.0"), 2),
        create_order(3, CAROL, "food", OrderType::Bid, 5, d("20.0"), 3),
        create_order(4, DAVID, "food", OrderType::Ask, 5, d("18.0"), 4),
    ];
    let participants = create_participants(vec![
        (ALICE, d("200.0")),
        (BOB, d("200.0")),
        (CAROL, d("200.0")),
        (DAVID, d("200.0")),
    ]);
    let result = run_auction(orders, participants, 5, Vec::new());
    match result {
        Ok(success) => {
            assert_eq!(success.clearing_prices.len(), 2);
            let wood_price = price_of(&success, "wood").unwrap();
            assert!(wood_price == dd("12.0") || wood_price == dd("15.0"));
            let food_price = price_of(&success, "food").unwrap();
            assert!(food_price == dd("18.0") || food_price == dd("20.0"));
            assert_eq!(success.final_fills.len(), 4);
            assert_eq!(fill(&success, 1).unwrap().filled_quantity, 10);
            assert_eq!(fill(&success, 3).unwrap().filled_quantity, 5);
        }
        Err(e) => panic!("Multi-resource auction should have succeeded, failed with {:?}", e),
    }
}

#[test]
fn test_resource_isolation() {
    let orders = vec![
        create_order(1, ALICE, "wood", OrderType::Bid, 5, d("50.0"), 1),
        create_order(2, BOB, "food", OrderType::Ask, 5, d("10.0"), 2),
    ];
    let participants = create_participants(vec![(ALICE, d("500.0")), (BOB, d("500.0"))]);
    let result = run_auction(orders, participants, 5, Vec::new());
    match result {
        Ok(success) => {
            assert_eq!(success.final_fills.len(), 0);
            assert_eq!(success.clearing_prices.len(), 0);
            assert_eq!(val(balance(&success, ALICE).final_currency), dd("500.0"));
            assert_eq!(val(balance(&success, BOB).final_currency), dd("500.0"));
        }
        Err(e) => panic!("Resource isolation test should have succeeded, failed with {:?}", e),
    }
}

#[test]
fn test_multi_resource_budget_constraint() {
    let orders = vec![
        create_order(1, ALICE, "wood", OrderType::Bid, 10, d("20.0"), 1),
        create_order(2, ALICE, "food", OrderType::Bid, 10, d("30.0"), 2),
        create_order(3, BOB, "wood", OrderType::Ask, 10, d("20.0"), 3),
        create_order(4, CAROL, "food", OrderType::Ask, 10, d("30.0"), 4),
    ];
    let participants = create_participants(vec![
        (ALICE, d("400.0")),
        (BOB, d("1000.0")),
        (CAROL, d("1000.0")),
    ]);
    let result = run_auction(orders, participants, 10, Vec::new());
    match result {
        Ok(success) => {
            let total_cost: Decimal = success
                .final_fills
                .iter()
                .filter(|f| f.participant_id == ParticipantId(ALICE))
                .map(|f| Decimal::from(f.filled_quantity) * val(f.price))
                .sum();
            assert!(total_cost <= dd("400.0"));
            assert!(val(balance(&success, ALICE).final_currency) >= dd("0.0"));
        }
        Err(e) => panic!("Multi-resource budget constraint test failed: {:?}", e),
    }
}

#[test]
fn auction_balances_follow_fills() {
    // Every participant ends with its currency less what it paid, net.
    let orders = vec![
        create_order(1, ALICE, "wood", OrderType::Ask, 4, d("2.5"), 1),
        create_order(2, BOB, "wood", OrderType::Bid, 4, d("3"), 2),
    ];
    let participants = create_participants(vec![(ALICE, d("10")), (BOB, d("20"))]);
    let success = run_auction(orders, participants, 5, Vec::new()).unwrap();
    assert_eq!(success.final_balances.len(), 2);
    for b in &success.final_balances {
        let paid: Decimal = success
            .final_fills
            .iter()
            .filter(|f| f.participant_id == b.participant_id)
            .map(|f| {
                let v = Decimal::from(f.filled_quantity) * val(f.price);
                if f.order_type == OrderType::Bid { v } else { -v }
            })
            .sum();
        let start = if b.participant_id == ParticipantId(ALICE) { dd("10") } else { dd("20") };
        assert_eq!(val(b.final_currency), start - paid);
    }
}

#[test]
fn auction_error_messages() {
    assert_eq!(AuctionError::MaxIterationsReached.message(), "Maximum iterations reached");
    assert_eq!(
        AuctionError::InternalError("bad".to_string()).message(),
        "Internal error: bad"
    );
}

#[test]
fn auction_with_prices_too_fine_for_exact_sums() {
    // At 28 decimal places, seven units cost more than a decimal can hold at
    // that scale, so the value is rounded; balances follow the rounded sums.
    let p = d("3.3333333333333333333333333333");
    let orders = vec![
        create_order(1, ALICE, "wood", OrderType::Ask, 7, p, 1),
        create_order(2, BOB, "wood", OrderType::Bid, 7, p, 2),
    ];
    let participants = create_participants(vec![(ALICE, d("0")), (BOB, d("100"))]);
    let success = run_auction(orders, participants, 5, Vec::new()).unwrap();
    let value = Decimal::from(7u64) * val(p);
    assert_eq!(val(balance(&success, BOB).final_currency), dd("100") - value);
    assert_eq!(val(balance(&success, ALICE).final_currency), dd("0") + value);
    assert!(val(balance(&success, BOB).final_currency) >= dd("0"));
}

#[test]
fn short_buyer_is_scaled_down_until_it_can_pay() {
    // Bob bids for 10 at 10 with only 55: his bid is cut to what he can pay.
    let orders = vec![
        create_order(1, ALICE, "food", OrderType::Ask, 10, d("10"), 1),
        create_order(2, BOB, "food", OrderType::Bid, 10, d("10"), 2),
    ];
    let participants = create_participants(vec![(ALICE, d("0")), (BOB, d("55"))]);
    let success = run_auction(orders, participants, 10, Vec::new()).unwrap();
    let bought = fill(&success, 2).map(|f| f.filled_quantity).unwrap_or(0);
    assert!(bought <= 5);
    assert!(val(balance(&success, BOB).final_currency) >= dd("0"));
    assert_eq!(val(balance(&success, BOB).final_currency), dd("55") - Decimal::from(bought) * dd("10"));
}
