use rust_decimal::Decimal;
use std::str::FromStr;
use village_model::auction::{FinalFill, OrderId, OrderType, ParticipantId, ResourceId};
use village_model::decimal::Dec;
use village_model::events::{EventLogger, EventType, ResourceType, TradeSide};
use village_model::simulation::{apply_trades, create_village};
use village_model::types::VillageId;
use village_model::village::Village;

fn d(s: &str) -> Dec {
    let x = Decimal::from_str(s).unwrap();
    Dec { mantissa: x.mantissa(), scale: x.scale() }
}

fn val(x: Dec) -> Decimal {
    Decimal::from_i128_with_scale(x.mantissa, x.scale)
}

fn dd(s: &str) -> Decimal {
    Decimal::from_str(s).unwrap()
}

fn ids_of(villages: &[Village]) -> Vec<(String, VillageId)> {
    villages.iter().map(|v| (v.id_str.clone(), VillageId::new(&v.id_str))).collect()
}

fn pid(ids: &[(String, VillageId)], name: &str) -> ParticipantId {
    let vid = &ids.iter().find(|(n, _)| n == name).unwrap().1;
    ParticipantId(vid.to_participant_id())
}

fn fill_for(p: ParticipantId, order: usize, resource: &str, order_type: OrderType, qty: u64, price: &str) -> FinalFill {
    FinalFill {
        order_id: OrderId(order),
        participant_id: p,
        resource_id: ResourceId(resource.to_string()),
        order_type,
        filled_quantity: qty,
        price: d(price),
    }
}

/// One village trades one fill; returns the change in (wood, food, money).
fn single_trade(resource: &str, order_type: OrderType, qty: u64, price: &str) -> (Decimal, Decimal, Decimal) {
    let mut villages = vec![create_village(0, (2, 1), (2, 1), 5, 1)];
    let mut logger = EventLogger::new();
    let village_ids = ids_of(&villages);
    let fills = vec![fill_for(pid(&village_ids, "village_0"), 1, resource, order_type, qty, price)];
    let (w0, f0, m0) = (val(villages[0].wood), val(villages[0].food), val(villages[0].money));
    apply_trades(&mut villages, &village_ids, &fills, &mut logger, 0);
    (val(villages[0].wood) - w0, val(villages[0].food) - f0, val(villages[0].money) - m0)
}

fn check_wood_buy() {
    let (w, _, m) = single_trade("wood", OrderType::Bid, 10, "15.0");
    assert_eq!(w, dd("10"));
    assert_eq!(m, dd("-150"));
}

fn check_wood_sell() {
    let (w, _, m) = single_trade("wood", OrderType::Ask, 5, "20.0");
    assert_eq!(w, dd("-5"));
    assert_eq!(m, dd("100"));
}

fn check_food_buy() {
    let (_, f, m) = single_trade("food", OrderType::Bid, 8, "12.0");
    assert_eq!(f, dd("8"));
    assert_eq!(m, dd("-96"));
}

fn check_food_sell() {
    let (_, f, m) = single_trade("food", OrderType::Ask, 15, "10.0");
    assert_eq!(f, dd("-15"));
    assert_eq!(m, dd("150"));
}

fn check_multiple_resources() {
    let mut villages = vec![
        create_village(0, (2, 1), (2, 1), 5, 1),
        create_village(1, (2, 1), (2, 1), 5, 1),
    ];
    let mut logger = EventLogger::new();
    let ids = ids_of(&villages);
    let fills = vec![
        fill_for(pid(&ids, "village_0"), 1, "wood", OrderType::Bid, 10, "15.0"),
        fill_for(pid(&ids, "village_1"), 2, "wood", OrderType::Ask, 10, "15.0"),
        fill_for(pid(&ids, "village_0"), 3, "food", OrderType::Ask, 5, "20.0"),
        fill_for(pid(&ids, "village_1"), 4, "food", OrderType::Bid, 5, "20.0"),
    ];
    let before: Vec<(Decimal, Decimal, Decimal)> =
        villages.iter().map(|v| (val(v.wood), val(v.food), val(v.money))).collect();
    apply_trades(&mut villages, &ids, &fills, &mut logger, 0);
    assert_eq!(val(villages[0].wood), before[0].0 + dd("10"));
    assert_eq!(val(villages[0].food), before[0].1 - dd("5"));
    assert_eq!(val(villages[0].money), before[0].2 - dd("50"));
    assert_eq!(val(villages[1].wood), before[1].0 - dd("10"));
    assert_eq!(val(villages[1].food), before[1].1 + dd("5"));
    assert_eq!(val(villages[1].money), before[1].2 + dd("50"));
}

fn check_no_matching_village() {
    let mut villages = vec![create_village(0, (2, 1), (2, 1), 5, 1)];
    let mut logger = EventLogger::new();
    let ids = ids_of(&villages);
    let fills = vec![fill_for(ParticipantId(999), 1, "wood", OrderType::Bid, 10, "15.0")];
    let (w0, m0) = (val(villages[0].wood), val(villages[0].money));
    apply_trades(&mut villages, &ids, &fills, &mut logger, 0);
    assert_eq!(val(villages[0].wood), w0);
    assert_eq!(val(villages[0].money), m0);
}

#[test]
fn main_test_apply_trades_wood_buy() {
    check_wood_buy();
}

#[test]
fn main_test_apply_trades_wood_sell() {
    check_wood_sell();
}

#[test]
fn main_test_apply_trades_food_buy() {
    check_food_buy();
}

#[test]
fn main_test_apply_trades_food_sell() {
    check_food_sell();
}

#[test]
fn main_test_apply_trades_multiple_resources() {
    check_multiple_resources();
}

#[test]
fn main_test_apply_trades_no_matching_village() {
    check_no_matching_village();
}

#[test]
fn main_old2_test_apply_trades_wood_buy() {
    check_wood_buy();
}

#[test]
fn main_old2_test_apply_trades_wood_sell() {
    check_wood_sell();
}

#[test]
fn main_old2_test_apply_trades_food_buy() {
    check_food_buy();
}

#[test]
fn main_old2_test_apply_trades_food_sell() {
    check_food_sell();
}

#[test]
fn main_old2_test_apply_trades_multiple_resources() {
    check_multiple_resources();
}

#[test]
fn main_old2_test_apply_trades_no_matching_village() {
    check_no_matching_village();
}

#[test]
fn trades_are_logged_with_the_market() {
    let mut villages = vec![create_village(0, (2, 1), (2, 1), 5, 1)];
    let mut logger = EventLogger::new();
    let ids = ids_of(&villages);
    let fills = vec![fill_for(pid(&ids, "village_0"), 1, "wood", OrderType::Bid, 3, "2.5")];
    apply_trades(&mut villages, &ids, &fills, &mut logger, 7);
    let events = logger.get_events();
    assert_eq!(events.len(), 1);
    assert_eq!(events[0].tick, 7);
    assert_eq!(events[0].village_id, "village_0");
    match &events[0].event_type {
        EventType::TradeExecuted { resource, quantity, price, counterparty, side } => {
            assert_eq!(*resource, ResourceType::Wood);
            assert_eq!(val(*quantity), dd("3"));
            assert_eq!(val(*price), dd("2.5"));
            assert_eq!(counterparty, "market");
            assert_eq!(*side, TradeSide::Buy);
        }
        other => panic!("unexpected event {:?}", other),
    }
}

#[test]
fn unknown_resource_counts_as_wood() {
    // A fill for a resource that is neither wood nor food is settled as wood.
    let (w, f, m) = single_trade("stone", OrderType::Bid, 4, "1.0");
    assert_eq!((w, f, m), (dd("4"), dd("0"), dd("-4")));
}

#[test]
fn a_trade_conserves_goods_and_money() {
    // What the buyer gains the seller gives up, in goods and in money.
    let mut villages = vec![
        create_village(0, (2, 1), (2, 1), 5, 1),
        create_village(1, (2, 1), (2, 1), 5, 1),
    ];
    let mut logger = EventLogger::new();
    let ids = ids_of(&villages);
    let fills = vec![
        fill_for(pid(&ids, "village_0"), 1, "food", OrderType::Bid, 7, "3.25"),
        fill_for(pid(&ids, "village_1"), 2, "food", OrderType::Ask, 7, "3.25"),
    ];
    let total = |vs: &Vec<Village>| {
        vs.iter().fold((dd("0"), dd("0")), |acc, v| (acc.0 + val(v.food), acc.1 + val(v.money)))
    };
    let before = total(&villages);
    apply_trades(&mut villages, &ids, &fills, &mut logger, 0);
    assert_eq!(total(&villages), before);
}
