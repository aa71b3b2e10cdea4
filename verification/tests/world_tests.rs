use rust_decimal::Decimal;
use std::str::FromStr;
use village_model::auction::{auction_ready_check, Order, OrderId, OrderType, Participant, ParticipantId, ResourceId};
use village_model::decimal::Dec;
use village_model::events::{EventLogger, ResourceType};
use village_model::simulation::{create_village, day_ready_check, is_tame, settlement_check};
use village_model::types::{OrderRequest, VillageId};
use village_model::village::{Allocation, Village};
use village_model::world::{run_day, DayOutcome};

fn d(s: &str) -> Dec {
    let x = Decimal::from_str(s).unwrap();
    Dec { mantissa: x.mantissa(), scale: x.scale() }
}

fn val(x: Dec) -> Decimal {
    Decimal::from_i128_with_scale(x.mantissa, x.scale)
}

fn dd(s: &str) -> Decimal {
    Decimal::from_str(s).unwrap()
}

fn ids_of(villages: &[Village]) -> Vec<(String, VillageId)> {
    villages.iter().map(|v| (v.id_str.clone(), VillageId::new(&v.id_str))).collect()
}

fn two_villages() -> Vec<Village> {
    vec![create_village(0, (2, 1), (2, 1), 5, 2), create_village(1, (2, 1), (2, 1), 5, 2)]
}

fn even_split() -> Allocation {
    Allocation { wood: d("2.0"), food: d("2.0"), house_construction: d("1.0") }
}

fn request(resource: ResourceType, is_buy: bool, quantity: u32, price: &str) -> OrderRequest {
    OrderRequest { resource, is_buy, quantity, price: d(price) }
}

/// Runs one day of two villages with the given orders and returns the
/// outcome, the villages after it, the last prices and the number of events.
fn day_with(orders0: Vec<OrderRequest>, orders1: Vec<OrderRequest>) -> (DayOutcome, Vec<Village>, Vec<(ResourceId, Dec)>, usize) {
    let mut villages = two_villages();
    let ids = ids_of(&villages);
    let plans = vec![(even_split(), orders0), (even_split(), orders1)];
    let mut prices: Vec<(ResourceId, Dec)> = Vec::new();
    let mut logger = EventLogger::new();
    let outcome = run_day(&mut villages, &plans, &ids, &mut prices, &mut logger, 0);
    let n = logger.get_events().len();
    (outcome, villages, prices, n)
}

#[test]
fn run_day_without_orders_lives_the_day_and_does_not_trade() {
    let (outcome, villages, prices, events) = day_with(vec![], vec![]);
    assert!(matches!(outcome, DayOutcome::Done { traded: true, all_dead: false }));
    assert!(prices.is_empty());
    assert!(events > 0);
    // Both villages lived the same day: 2 worker-days on wood, 2 on food.
    assert_eq!(val(villages[0].wood), val(villages[1].wood));
    assert_eq!(val(villages[0].food), val(villages[1].food));
    assert_eq!(val(villages[0].money), dd("100.0"));
    assert_eq!(villages[0].workers.len(), 5);
}

#[test]
fn run_day_settles_a_wood_trade_between_two_villages() {
    let (_, quiet, _, quiet_events) = day_with(vec![], vec![]);
    let (outcome, villages, prices, events) = day_with(
        vec![request(ResourceType::Wood, false, 10, "1.0")],
        vec![request(ResourceType::Wood, true, 10, "2.0")],
    );
    assert!(matches!(outcome, DayOutcome::Done { traded: true, all_dead: false }));
    assert_eq!(prices.len(), 1);
    assert_eq!(prices[0].0 .0, "wood");
    let price = val(prices[0].1);
    assert!(price >= dd("1.0") && price <= dd("2.0"));
    assert_eq!(val(villages[0].wood) - val(quiet[0].wood), dd("-10"));
    assert_eq!(val(villages[1].wood) - val(quiet[1].wood), dd("10"));
    assert_eq!(val(villages[0].money) - val(quiet[0].money), price * dd("10"));
    assert_eq!(val(villages[1].money) - val(quiet[1].money), -price * dd("10"));
    assert_eq!(val(villages[0].food), val(quiet[0].food));
    // Two placed orders and two trades were logged on top of the quiet day.
    assert_eq!(events, quiet_events + 4);
}

#[test]
fn run_day_stops_at_a_village_whose_allocation_does_not_add_up() {
    let mut villages = two_villages();
    let ids = ids_of(&villages);
    let wrong = Allocation { wood: d("4.0"), food: d("4.0"), house_construction: d("0.0") };
    let plans = vec![(even_split(), vec![]), (wrong, vec![])];
    let mut prices: Vec<(ResourceId, Dec)> = Vec::new();
    let mut logger = EventLogger::new();
    let outcome = run_day(&mut villages, &plans, &ids, &mut prices, &mut logger, 0);
    assert!(matches!(outcome, DayOutcome::VillageOutOfRange(1)));
    assert_eq!(val(villages[1].wood), dd("100.0"));
    assert_eq!(val(villages[1].food), dd("100.0"));
}

#[test]
fn run_day_reports_a_village_without_identifier() {
    let mut villages = two_villages();
    let ids: Vec<(String, VillageId)> = vec![(villages[0].id_str.clone(), VillageId::new(&villages[0].id_str))];
    let plans = vec![(even_split(), vec![]), (even_split(), vec![])];
    let mut prices: Vec<(ResourceId, Dec)> = Vec::new();
    let mut logger = EventLogger::new();
    let outcome = run_day(&mut villages, &plans, &ids, &mut prices, &mut logger, 0);
    assert!(matches!(outcome, DayOutcome::UnknownVillage(1)));
    assert_eq!(val(villages[1].wood), dd("100.0"));
}

#[test]
fn run_day_reports_when_every_village_is_empty() {
    let mut villages = vec![create_village(0, (1, 0), (1, 0), 0, 0)];
    let ids = ids_of(&villages);
    let zero = Allocation { wood: d("0"), food: d("0"), house_construction: d("0") };
    let plans = vec![(zero, vec![])];
    let mut prices: Vec<(ResourceId, Dec)> = Vec::new();
    let mut logger = EventLogger::new();
    let outcome = run_day(&mut villages, &plans, &ids, &mut prices, &mut logger, 3);
    assert!(matches!(outcome, DayOutcome::Done { all_dead: true, .. }));
}

#[test]
fn day_ready_check_accepts_a_matching_allocation_and_refuses_others() {
    let village = create_village(0, (2, 1), (2, 1), 5, 2);
    assert!(day_ready_check(&village, &even_split()));
    let short = Allocation { wood: d("1.0"), food: d("1.0"), house_construction: d("1.0") };
    assert!(!day_ready_check(&village, &short));
    let huge = Allocation { wood: d("100000000000000000000000"), food: d("0"), house_construction: d("0") };
    assert!(!day_ready_check(&village, &huge));
}

#[test]
fn is_tame_bounds_the_magnitude() {
    assert!(is_tame(&d("0")));
    assert!(is_tame(&d("-123.45")));
    assert!(is_tame(&d("10000000000000000000000")));
    assert!(!is_tame(&d("10000000000000000000000.1")));
    assert!(!is_tame(&d("-20000000000000000000000")));
}

fn order(id: usize, participant: u32, resource: &str, order_type: OrderType, quantity: u64, price: &str) -> Order {
    Order {
        id: OrderId(id),
        participant_id: ParticipantId(participant),
        resource_id: ResourceId(resource.to_string()),
        order_type,
        original_quantity: quantity,
        effective_quantity: quantity,
        limit_price: d(price),
        timestamp: id as u64,
    }
}

#[test]
fn auction_ready_check_accepts_a_small_market() {
    let orders = vec![
        order(1, 1, "wood", OrderType::Ask, 10, "1.0"),
        order(2, 2, "wood", OrderType::Bid, 10, "2.0"),
    ];
    let participants = vec![
        Participant { id: ParticipantId(1), currency: d("100") },
        Participant { id: ParticipantId(2), currency: d("100") },
    ];
    assert!(auction_ready_check(&orders, &participants, &Vec::new()));
}

#[test]
fn auction_ready_check_refuses_repeated_order_ids() {
    let orders = vec![
        order(1, 1, "wood", OrderType::Ask, 10, "1.0"),
        order(1, 2, "wood", OrderType::Bid, 10, "2.0"),
    ];
    let participants = vec![
        Participant { id: ParticipantId(1), currency: d("100") },
        Participant { id: ParticipantId(2), currency: d("100") },
    ];
    assert!(!auction_ready_check(&orders, &participants, &Vec::new()));
}

#[test]
fn settlement_check_accepts_fills_of_known_size() {
    let villages = two_villages();
    assert!(settlement_check(&villages, &Vec::new()));
}
