use rust_decimal::Decimal;
use std::str::FromStr;
use village_model::analysis::{average_price, digest_events};
use village_model::decimal::Dec;
use village_model::events::{ConsumptionPurpose, DeathCause, Event, EventType, ResourceType, TradeSide};

fn d(s: &str) -> Dec {
    let x = Decimal::from_str(s).unwrap();
    Dec { mantissa: x.mantissa(), scale: x.scale() }
}

fn val(x: Dec) -> Decimal {
    Decimal::from_i128_with_scale(x.mantissa, x.scale)
}

fn dd(s: &str) -> Decimal {
    Decimal::from_str(s).unwrap()
}

fn ev(tick: usize, id: &str, t: EventType) -> Event {
    Event { timestamp: 0, tick, village_id: id.to_string(), event_type: t }
}

fn snapshot(population: usize) -> EventType {
    EventType::VillageStateSnapshot { population, houses: 1, food: d("1"), wood: d("1"), money: d("1") }
}

fn trade(resource: ResourceType, quantity: &str, price: &str, side: TradeSide) -> EventType {
    EventType::TradeExecuted { resource, quantity: d(quantity), price: d(price), counterparty: "market".to_string(), side }
}

fn order(side: TradeSide) -> EventType {
    EventType::OrderPlaced { resource: ResourceType::Wood, quantity: d("1"), price: d("1"), side, order_id: "o".to_string() }
}

fn log() -> Vec<Event> {
    vec![
        ev(0, "b", EventType::WorkerBorn { worker_id: 1, total_population: 3 }),
        ev(0, "a", snapshot(0)),
        ev(1, "b", EventType::WorkerAllocation { food_workers: 2, wood_workers: 1, construction_workers: 0, repair_workers: 0, idle_workers: 0 }),
        ev(1, "a", snapshot(4)),
        ev(2, "a", EventType::ResourceProduced { resource: ResourceType::Food, amount: d("2.5"), workers_assigned: 1 }),
        ev(2, "a", EventType::ResourceProduced { resource: ResourceType::Food, amount: d("1.5"), workers_assigned: 1 }),
        ev(2, "a", EventType::ResourceConsumed { resource: ResourceType::Wood, amount: d("0.7"), purpose: ConsumptionPurpose::HouseMaintenance }),
        ev(3, "a", order(TradeSide::Sell)),
        ev(3, "b", order(TradeSide::Buy)),
        ev(3, "a", trade(ResourceType::Wood, "2", "1.5", TradeSide::Sell)),
        ev(3, "b", trade(ResourceType::Wood, "2", "1.5", TradeSide::Buy)),
        ev(4, "b", trade(ResourceType::Food, "1", "3.25", TradeSide::Buy)),
        ev(7, "a", EventType::WorkerDied { worker_id: 2, cause: DeathCause::NoShelter, total_population: 3 }),
        ev(5, "a", snapshot(6)),
        ev(6, "a", snapshot(2)),
    ]
}

#[test]
fn digest_lists_villages_in_order_of_their_first_counted_event() {
    let digest = digest_events(&log());
    // The birth of "b" comes first but gives it no entry.
    let ids: Vec<&str> = digest.villages.iter().map(|v| v.id.as_str()).collect();
    assert_eq!(ids, vec!["a", "b"]);
    assert_eq!(digest.max_tick, 7);
}

#[test]
fn digest_counts_a_village() {
    let digest = digest_events(&log());
    let a = &digest.villages[0];
    // The first snapshot said zero, so the initial population is the next one.
    assert_eq!(a.counts.initial_population, 4);
    assert_eq!(a.counts.final_population, 2);
    assert_eq!(a.counts.peak_population, 6);
    assert_eq!(a.population_history, vec![(0, 0), (1, 4), (5, 6), (6, 2)]);
    assert_eq!(val(a.counts.food_produced), dd("4.0"));
    assert_eq!(val(a.counts.wood_produced), dd("0"));
    assert_eq!(val(a.counts.wood_consumed), dd("0.7"));
    assert_eq!(a.counts.shelter_deaths, 1);
    assert_eq!(a.counts.starvation_deaths, 0);
    assert_eq!(a.counts.sell_orders, 1);
    assert_eq!(a.counts.buy_orders, 0);
    assert_eq!(a.counts.total_trades, 1);
    assert_eq!(a.counts.executed_sells, 1);
    assert_eq!(val(a.counts.total_earned), dd("3.0"));
    assert_eq!(val(a.net_profit), dd("3.0"));
    assert!(a.allocations.is_empty());
}

#[test]
fn digest_counts_purchases_as_spending() {
    let digest = digest_events(&log());
    let b = &digest.villages[1];
    assert_eq!(b.allocations, vec![(2, 1)]);
    assert_eq!(b.counts.buy_orders, 1);
    assert_eq!(b.counts.executed_buys, 2);
    assert_eq!(val(b.counts.total_spent), dd("6.25"));
    assert_eq!(val(b.counts.total_earned), dd("0"));
    assert_eq!(val(b.net_profit), dd("-6.25"));
    assert_eq!(b.counts.initial_population, 0);
    assert!(b.population_history.is_empty());
}

#[test]
fn digest_follows_the_market() {
    let digest = digest_events(&log());
    let m = &digest.market;
    assert_eq!(m.total_orders, 2);
    assert_eq!(m.total_trades, 3);
    assert_eq!(m.wood_prices.iter().map(|(t, p)| (*t, val(*p))).collect::<Vec<_>>(), vec![(3, dd("1.5")), (3, dd("1.5"))]);
    assert_eq!(m.food_prices.iter().map(|(t, p)| (*t, val(*p))).collect::<Vec<_>>(), vec![(4, dd("3.25"))]);
    assert_eq!(m.wood_volume.map(val), Some(dd("4")));
    assert_eq!(m.food_volume.map(val), Some(dd("1")));
}

#[test]
fn digest_of_an_empty_log() {
    let digest = digest_events(&[]);
    assert!(digest.villages.is_empty());
    assert_eq!(digest.market.total_orders, 0);
    assert_eq!(digest.market.wood_volume.map(val), None);
    assert_eq!(digest.max_tick, 0);
}

#[test]
fn average_price_divides_the_sum_by_the_count() {
    assert_eq!(average_price(&vec![]).map(val), None);
    let prices = vec![(0, d("1.5")), (2, d("2.5")), (3, d("3.5"))];
    assert_eq!(average_price(&prices).map(val), Some(dd("2.5")));
    let prices = vec![(0, d("1")), (1, d("2"))];
    assert_eq!(average_price(&prices).map(val), Some(dd("1.5")));
    let prices = vec![(0, d("1")), (1, d("0")), (2, d("0"))];
    assert_eq!(average_price(&prices).map(val), Some(dd("1") / dd("3")));
}
