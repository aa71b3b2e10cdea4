use rust_decimal::Decimal;
use std::hash::{Hash, Hasher};
use std::str::FromStr;
use village_model::auction::OrderType;
use village_model::analysis::{extract_strategy_from_id, extract_strategy_name};
use village_model::auction_builder::AuctionBuilder;
use village_model::decimal::Dec;
use village_model::events::{ConsumptionPurpose, DeathCause, Event, EventLogger, EventType, ResourceType, TradeSide};
use village_model::fp::{dec, fp, Fp};
use village_model::metrics::MetricsCalculator;
use village_model::types::{OrderRequest, ResourceTypeExt, VillageId};

fn d(s: &str) -> Dec {
    let x = Decimal::from_str(s).unwrap();
    Dec { mantissa: x.mantissa(), scale: x.scale() }
}

fn val(x: Dec) -> Decimal {
    Decimal::from_i128_with_scale(x.mantissa, x.scale)
}

#[test]
fn test_event_logger() {
    let mut logger = EventLogger::new();
    logger.log(1, "village_a".to_string(), EventType::WorkerBorn { worker_id: 1, total_population: 11 });
    logger.log(
        2,
        "village_a".to_string(),
        EventType::ResourceConsumed {
            resource: ResourceType::Food,
            amount: d("10.0"),
            purpose: ConsumptionPurpose::WorkerFeeding,
        },
    );
    let events = logger.get_events();
    assert_eq!(events.len(), 2);
    assert_eq!(events[0].tick, 1);
    assert_eq!(events[1].tick, 2);
}

#[test]
fn logger_clear_and_reload() {
    let mut logger = EventLogger::new();
    logger.log(4, "v".to_string(), EventType::WorkerBorn { worker_id: 0, total_population: 1 });
    let saved = logger.get_events().to_vec();
    logger.clear();
    assert!(logger.get_events().is_empty());
    let reloaded = EventLogger::from_events(saved);
    assert_eq!(reloaded.get_events().len(), 1);
    assert_eq!(reloaded.get_events()[0].village_id, "v");
    assert!(reloaded.get_events()[0].timestamp > 0);
}

#[test]
fn resource_names_round_trip() {
    assert_eq!(ResourceType::Wood.as_str(), "wood");
    assert_eq!(ResourceType::Food.as_str(), "food");
    assert_eq!(<ResourceType as ResourceTypeExt>::from_str("wood"), Some(ResourceType::Wood));
    assert_eq!(<ResourceType as ResourceTypeExt>::from_str("food"), Some(ResourceType::Food));
    assert_eq!(<ResourceType as ResourceTypeExt>::from_str("Wood"), None);
}

#[test]
fn participant_ids_are_stable() {
    let a = VillageId::new("village_0");
    let b = VillageId::new("village_0");
    let c = VillageId::new("village_1");
    assert_eq!(a.to_participant_id(), b.to_participant_id());
    assert_ne!(a.to_participant_id(), c.to_participant_id());
    // The number is the name hashed as std hashes a string, cut to 32 bits.
    let mut h = std::collections::hash_map::DefaultHasher::new();
    "village_0".to_string().hash(&mut h);
    assert_eq!(a.to_participant_id(), h.finish() as u32);
}

#[test]
fn builder_numbers_and_stamps_orders() {
    let mut builder = AuctionBuilder::new();
    let a = VillageId::new("a");
    let b = VillageId::new("b");
    builder.add_village(&a, d("100"));
    builder.add_village(&b, d("50"));
    builder.add_village(&a, d("70"));
    builder.add_order(&a, OrderRequest { resource: ResourceType::Wood, is_buy: true, quantity: 3, price: d("5.5") });
    builder.add_order(&b, OrderRequest { resource: ResourceType::Food, is_buy: false, quantity: 2, price: d("1") });
    let (orders, participants) = builder.build();
    assert_eq!(participants.len(), 2);
    assert_eq!(participants[0].id.0, a.to_participant_id());
    assert_eq!(val(participants[0].currency), Decimal::from(70));
    assert_eq!(orders.len(), 2);
    assert_eq!(orders[0].id.0, 0);
    assert_eq!(orders[1].id.0, 1);
    assert_eq!(orders[0].timestamp, 0);
    assert_eq!(orders[1].timestamp, 1);
    assert_eq!(orders[0].order_type, OrderType::Bid);
    assert_eq!(orders[1].order_type, OrderType::Ask);
    assert_eq!(orders[0].resource_id.0, "wood");
    assert_eq!(orders[1].resource_id.0, "food");
    assert_eq!(orders[0].original_quantity, 3);
    assert_eq!(orders[0].effective_quantity, 3);
    assert_eq!(orders[1].participant_id.0, b.to_participant_id());
}

#[test]
fn fixed_point_arithmetic() {
    assert_eq!(fp(3), Fp(300));
    assert_eq!(dec(1, 50), Fp(150));
    assert_eq!(fp(2).add(dec(0, 50)), Fp(250));
    assert_eq!(fp(2).sub(fp(5)), Fp(-300));
    assert_eq!(dec(1, 50).mul(fp(2)), Fp(300));
    assert_eq!(fp(10).div(fp(4)), Fp(250));
    assert_eq!(fp(-7).div(fp(2)), Fp(-350));
    assert_eq!(dec(0, 1).mul(dec(0, 1)), Fp(0));
    assert_eq!(fp(4).neg(), Fp(-400));
    assert_eq!(fp(-4).abs(), Fp(400));
    assert_eq!(Fp::sum(&vec![fp(1), dec(0, 50), fp(-3)]), Fp(-150));
}

#[test]
fn decimal_comparisons() {
    let a = d("1.50");
    let b = d("1.5");
    assert!(a.eq_value(&b));
    assert!(a.le(&b) && a.ge(&b));
    assert!(d("-2").lt(&d("0.1")));
    assert_eq!(val(d("-2.5").abs()), Decimal::from_str("2.5").unwrap());
    assert_eq!(val(d("3").min(d("2.9"))), Decimal::from_str("2.9").unwrap());
}

#[test]
fn test_event_creation_and_display() {
    let event = Event {
        timestamp: 0,
        tick: 10,
        village_id: "test_village".to_string(),
        event_type: EventType::ResourceProduced { resource: ResourceType::Food, amount: d("5.0"), workers_assigned: 2 },
    };
    let display = event.describe();
    assert!(display.contains("[10] Village test_village:"));
    assert!(display.contains("Produced 5.0 Food with 2 workers"));
}

#[test]
fn event_descriptions() {
    let ev = |t: EventType| Event { timestamp: 0, tick: 3, village_id: "v".to_string(), event_type: t };
    assert_eq!(
        ev(EventType::WorkerDied { worker_id: 4, cause: DeathCause::NoShelter, total_population: 9 }).describe(),
        "[3] Village v: Worker 4 died of NoShelter (population: 9)"
    );
    assert_eq!(
        ev(EventType::TradeExecuted {
            resource: ResourceType::Wood,
            quantity: d("10"),
            price: d("15.5"),
            counterparty: "market".to_string(),
            side: TradeSide::Sell,
        })
        .describe(),
        "[3] Village v: Sell 10 Wood at 15.5 with market"
    );
    assert_eq!(
        ev(EventType::HouseDecayed { house_id: 1, maintenance_level: d("-0.3") }).describe(),
        "[3] Village v: House 1 decayed to -0.3 maintenance"
    );
    assert_eq!(
        ev(EventType::WorkerAllocation { food_workers: 1, wood_workers: 2, construction_workers: 3, repair_workers: 0, idle_workers: 4 }).describe(),
        "[3] Village v: Allocated workers - F:1 W:2 C:3 R:0 I:4"
    );
}

#[test]
fn strategy_names_from_ids() {
    assert_eq!(extract_strategy_name("village_a"), Some("village_a".to_string()));
    assert_eq!(extract_strategy_from_id("village_1_balanced"), Some("balanced".to_string()));
    assert_eq!(extract_strategy_from_id("village_1_very_greedy"), Some("very_greedy".to_string()));
    assert_eq!(extract_strategy_from_id("village_1"), None);
    assert_eq!(extract_strategy_from_id("a__"), Some("".to_string()));
}

fn metric_events() -> Vec<Event> {
    let ev = |tick: usize, id: &str, t: EventType| Event { timestamp: 0, tick, village_id: id.to_string(), event_type: t };
    vec![
        ev(0, "test_village", EventType::VillageStateSnapshot { population: 10, houses: 2, food: d("50.0"), wood: d("50.0"), money: d("100.0") }),
        ev(1, "test_village", EventType::ResourceProduced { resource: ResourceType::Food, amount: d("10.0"), workers_assigned: 2 }),
        ev(2, "test_village", EventType::WorkerBorn { worker_id: 11, total_population: 11 }),
        ev(3, "test_village", EventType::WorkerDied { worker_id: 5, cause: DeathCause::Starvation, total_population: 10 }),
        ev(4, "other", EventType::WorkerBorn { worker_id: 1, total_population: 99 }),
        ev(5, "test_village", EventType::TradeExecuted { resource: ResourceType::Wood, quantity: d("4"), price: d("2.5"), counterparty: "market".to_string(), side: TradeSide::Sell }),
        ev(6, "test_village", EventType::HouseDecayed { house_id: 0, maintenance_level: d("-0.1") }),
        ev(7, "test_village", EventType::HouseDecayed { house_id: 1, maintenance_level: d("-0.3") }),
        ev(10, "test_village", EventType::VillageStateSnapshot { population: 10, houses: 2, food: d("45.0"), wood: d("48.0"), money: d("95.0") }),
    ]
}

#[test]
fn village_tally_counts() {
    let events = metric_events();
    let t = MetricsCalculator::tally_village("test_village", &events, 10, 10);
    assert_eq!(t.village_id, "test_village");
    assert_eq!(t.counts.final_population, 10);
    assert_eq!(t.counts.peak_population, 11);
    assert_eq!(t.counts.total_births, 1);
    assert_eq!(t.counts.total_deaths, 1);
    assert_eq!(t.counts.starvation_deaths, 1);
    assert_eq!(t.counts.shelter_deaths, 0);
    assert_eq!(t.counts.days_survived, 10);
    assert_eq!(val(t.counts.total_food_produced), Decimal::from(10));
    assert_eq!(t.counts.trades_executed, 1);
    assert_eq!(val(t.counts.trade_volume), Decimal::from(4));
    assert_eq!(val(t.counts.trade_profit), Decimal::from(10));
    assert_eq!(t.counts.maintenance_count, 2);
    assert_eq!(val(t.average_house_maintenance), Decimal::from_str("-0.2").unwrap());
    assert_eq!(t.population_history, vec![10, 11, 10]);
}

#[test]
fn tally_days_survived_ends_at_extinction() {
    let ev = |tick: usize, pop: usize| Event {
        timestamp: 0,
        tick,
        village_id: "v".to_string(),
        event_type: EventType::VillageStateSnapshot { population: pop, houses: 0, food: d("0"), wood: d("0"), money: d("0") },
    };
    let events = vec![ev(1, 3), ev(4, 0)];
    let t = MetricsCalculator::tally_village("v", &events, 3, 50);
    assert_eq!(t.counts.days_survived, 4);
    assert_eq!(t.counts.final_population, 0);
    assert_eq!(val(t.average_house_maintenance), Decimal::from(0));
}

/// The counts behind the village metrics of five events; the survival score,
/// final over initial population, is 10 / 10.
#[test]
fn test_village_metrics_calculation() {
    let ev = |tick: usize, t: EventType| Event { timestamp: 0, tick, village_id: "test_village".to_string(), event_type: t };
    let events = vec![
        ev(0, EventType::VillageStateSnapshot { population: 10, houses: 2, food: d("50.0"), wood: d("50.0"), money: d("100.0") }),
        ev(1, EventType::ResourceProduced { resource: ResourceType::Food, amount: d("10.0"), workers_assigned: 2 }),
        ev(2, EventType::WorkerBorn { worker_id: 11, total_population: 11 }),
        ev(3, EventType::WorkerDied { worker_id: 5, cause: DeathCause::Starvation, total_population: 10 }),
        ev(10, EventType::VillageStateSnapshot { population: 10, houses: 2, food: d("45.0"), wood: d("48.0"), money: d("95.0") }),
    ];
    let metrics = MetricsCalculator::tally_village("test_village", &events, 10, 10);
    assert_eq!(metrics.village_id, "test_village");
    assert_eq!(metrics.counts.final_population, 10);
    assert_eq!(metrics.counts.total_births, 1);
    assert_eq!(metrics.counts.total_deaths, 1);
    assert_eq!(metrics.counts.starvation_deaths, 1);
    assert_eq!(metrics.counts.days_survived, 10);
    assert_eq!(metrics.counts.final_population, metrics.initial_population);
}

#[test]
fn fixed_point_text() {
    assert_eq!(dec(12, 5).text(), "12.05");
    assert_eq!(fp(3).text(), "3.00");
    assert_eq!(Fp(-1234).text(), "-12.34");
    assert_eq!(Fp(-50).text(), "0.50");
    assert_eq!(Fp(7).text(), "0.07");
}
