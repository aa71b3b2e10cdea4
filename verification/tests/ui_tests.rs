use rust_decimal::Decimal;
use std::str::FromStr;
use village_model::decimal::Dec;
use village_model::events::{DeathCause, Event, EventType, ResourceType, TradeSide};
use village_model::ui::{all_showable, ResourceHistory, UIMode, UIState, VillagePanel};

fn d(s: &str) -> Dec {
    let x = Decimal::from_str(s).unwrap();
    Dec { mantissa: x.mantissa(), scale: x.scale() }
}

fn val(x: Dec) -> Decimal {
    Decimal::from_i128_with_scale(x.mantissa, x.scale)
}

fn dd(s: &str) -> Decimal {
    Decimal::from_str(s).unwrap()
}

fn ev(tick: usize, id: &str, t: EventType) -> Event {
    Event { timestamp: 0, tick, village_id: id.to_string(), event_type: t }
}

fn snapshot(population: usize) -> EventType {
    EventType::VillageStateSnapshot { population, houses: 1, food: d("1"), wood: d("2"), money: d("3") }
}

#[test]
fn history_keeps_the_last_fifty_amounts() {
    let mut h = ResourceHistory::new();
    for k in 1..=60u32 {
        h.record_production(Dec::from_u32(k));
    }
    assert_eq!(h.production_history.len(), 50);
    assert_eq!(val(h.production_history[0]), dd("11"));
    assert_eq!(val(h.last_production), dd("60"));
    assert!(h.averageable());
    assert_eq!(val(h.avg_production(10)), dd("55.5"));
    assert_eq!(val(h.avg_production(100)), dd("35.5"));
    assert_eq!(val(h.avg_consumption(10)), dd("0"));
}

#[test]
fn history_averages_what_it_has() {
    let mut h = ResourceHistory::new();
    h.record_consumption(d("1.5"));
    h.record_consumption(d("2.5"));
    assert_eq!(val(h.last_consumption), dd("2.5"));
    assert_eq!(val(h.avg_consumption(10)), dd("2"));
    assert_eq!(val(h.avg_consumption(1)), dd("2.5"));
    assert_eq!(val(h.avg_consumption(0)), dd("0"));
    let mut big = ResourceHistory::new();
    big.record_production(d("2000000000"));
    assert!(!big.averageable());
}

#[test]
fn panel_shows_the_last_trade_with_sales_negative() {
    let mut p = VillagePanel::new(&"a".to_string());
    p.apply(&ev(3, "a", EventType::TradeExecuted {
        resource: ResourceType::Food,
        quantity: d("4.5"),
        price: d("2"),
        counterparty: "market".to_string(),
        side: TradeSide::Sell,
    }));
    let (q, price) = p.last_food_trade.unwrap();
    assert_eq!(val(q), dd("-4.5"));
    assert_eq!(val(price), dd("2"));
    assert!(p.last_wood_trade.is_none());
}

#[test]
fn panel_keeps_the_last_five_deaths() {
    let mut p = VillagePanel::new(&"a".to_string());
    for t in 0..7usize {
        p.apply(&ev(t, "a", EventType::WorkerDied { worker_id: t, cause: DeathCause::NoShelter, total_population: 10 - t }));
    }
    assert_eq!(p.recent_deaths.len(), 5);
    assert_eq!(p.recent_deaths[0].0, 2);
    assert_eq!(p.recent_deaths[4].0, 6);
}

fn log() -> Vec<Event> {
    vec![
        ev(0, "a", snapshot(3)),
        ev(1, "a", EventType::ResourceProduced { resource: ResourceType::Wood, amount: d("2.5"), workers_assigned: 1 }),
        ev(1, "b", snapshot(4)),
        ev(2, "a", EventType::WorkerBorn { worker_id: 9, total_population: 4 }),
        ev(2, "a", snapshot(4)),
    ]
}

#[test]
fn viewer_starts_at_tick_zero() {
    let events = log();
    assert!(all_showable(&events));
    let ui = UIState::new(events);
    assert_eq!(ui.current_tick, 0);
    assert_eq!(ui.max_tick, 2);
    assert_eq!(ui.mode, UIMode::Replay);
    assert!(!ui.paused);
    assert_eq!(ui.villages.len(), 1);
    assert_eq!(ui.villages[0].id, "a");
    assert_eq!(ui.villages[0].population, 3);
    assert_eq!(ui.recent_events, vec!["[0] [0] Village a: State - Pop:3 Houses:1 Food:1 Wood:2 Money:3".to_string()]);
}

#[test]
fn viewer_steps_forward_and_back() {
    let mut ui = UIState::new(log());
    ui.step_forward();
    assert_eq!(ui.current_tick, 1);
    assert_eq!(ui.villages.len(), 2);
    assert_eq!(ui.villages[1].id, "b");
    assert_eq!(val(ui.villages[0].wood_history.last_production), dd("2.5"));
    ui.step_forward();
    assert_eq!(ui.current_tick, 2);
    assert_eq!(ui.villages[0].population, 4);
    assert_eq!(ui.villages[0].last_birth, Some(2));
    assert_eq!(ui.recent_events.len(), 5);
    // At the last tick, stepping forward does nothing.
    ui.step_forward();
    assert_eq!(ui.current_tick, 2);
    ui.step_backward();
    assert_eq!(ui.current_tick, 1);
    assert_eq!(ui.villages[0].population, 3);
    assert_eq!(ui.villages[0].last_birth, None);
    assert_eq!(ui.recent_events.len(), 3);
}

#[test]
fn viewer_jumps_only_within_the_run() {
    let mut ui = UIState::new(log());
    ui.jump_to_tick(2);
    assert_eq!(ui.current_tick, 2);
    assert_eq!(ui.villages[0].population, 4);
    ui.jump_to_tick(9);
    assert_eq!(ui.current_tick, 2);
    ui.jump_to_tick(0);
    assert_eq!(ui.current_tick, 0);
    assert_eq!(ui.villages.len(), 1);
    // Stepping back from tick zero does nothing.
    ui.step_backward();
    assert_eq!(ui.current_tick, 0);
    assert_eq!(ui.recent_events.len(), 1);
}

#[test]
fn viewer_keeps_ten_recent_lines() {
    let events: Vec<Event> = (0..12usize).map(|k| ev(0, "a", EventType::WorkerBorn { worker_id: k, total_population: k })).collect();
    let ui = UIState::new(events);
    assert_eq!(ui.recent_events.len(), 10);
    assert_eq!(ui.recent_events[0], "[0] [0] Village a: Worker 2 born (population: 2)");
    assert_eq!(ui.recent_events[9], "[0] [0] Village a: Worker 11 born (population: 11)");
}
