use rust_decimal::Decimal;
use std::str::FromStr;
use village_model::decimal::Dec;
use village_model::events::{ConsumptionPurpose, Event, EventType, ResourceType, TradeSide};
use village_model::analysis::{TradingSummary, VillageTrading};
use village_model::visualization::{interpolate_value, resource_timeline, trade_flow_diagram};

fn d(s: &str) -> Dec {
    let x = Decimal::from_str(s).unwrap();
    Dec { mantissa: x.mantissa(), scale: x.scale() }
}

fn val(x: Dec) -> Decimal {
    Decimal::from_i128_with_scale(x.mantissa, x.scale)
}

fn dd(s: &str) -> Decimal {
    Decimal::from_str(s).unwrap()
}

fn ev(tick: usize, id: &str, t: EventType) -> Event {
    Event { timestamp: 0, tick, village_id: id.to_string(), event_type: t }
}

fn produced(resource: ResourceType, amount: &str) -> EventType {
    EventType::ResourceProduced { resource, amount: d(amount), workers_assigned: 1 }
}

#[test]
fn interpolation_reads_between_samples() {
    let h = vec![(0, d("10")), (10, d("20"))];
    assert_eq!(val(interpolate_value(&h, 5)), dd("15"));
    assert_eq!(val(interpolate_value(&h, 0)), dd("10"));
    assert_eq!(val(interpolate_value(&h, 10)), dd("20"));
    // After the last sample, its value stands; before the first, the first's.
    assert_eq!(val(interpolate_value(&h, 12)), dd("20"));
    assert_eq!(val(interpolate_value(&vec![(5, d("7"))], 2)), dd("7"));
    assert_eq!(val(interpolate_value(&vec![], 3)), dd("0"));
}

#[test]
fn timeline_without_samples_says_so() {
    let events = vec![ev(0, "other", produced(ResourceType::Food, "3"))];
    let chart = resource_timeline(&events, "v", 20);
    let expected = format!("Resource Timeline: v\n{}\nNo resource data available for this village.\n", "─".repeat(20));
    assert_eq!(chart, expected);
}

#[test]
fn timeline_marks_food_wood_and_both() {
    let events = vec![
        ev(0, "v", produced(ResourceType::Food, "10")),
        ev(3, "v", EventType::ResourceConsumed { resource: ResourceType::Food, amount: d("1"), purpose: ConsumptionPurpose::WorkerFeeding }),
        ev(4, "v", EventType::TradeExecuted {
            resource: ResourceType::Food,
            quantity: d("1"),
            price: d("2"),
            counterparty: "market".to_string(),
            side: TradeSide::Buy,
        }),
        ev(5, "v", produced(ResourceType::Wood, "10")),
        ev(5, "w", produced(ResourceType::Wood, "99")),
    ];
    let chart = resource_timeline(&events, "v", 14);
    let rows = [
        ("9", "FFFF"),
        ("8", "FFFF"),
        ("7", "FFFF"),
        ("6", "FFF█"),
        ("5", "FFF█"),
        ("4", "FF██"),
        ("3", "FF██"),
        ("2", "F███"),
        ("1", "F███"),
        ("0", "████"),
    ];
    let mut expected = format!("Resource Timeline: v\n{}\n", "─".repeat(14));
    for (level, cells) in rows {
        expected.push_str(&format!("{:>6} │{}\n", level, cells));
    }
    expected.push_str("       └────\n        0 5\n\nF=Food  W=Wood  █=Both\n");
    assert_eq!(chart, expected);
}

fn trading(id: &str, trades: usize, sells: usize, earned: &str, buys: usize, spent: &str, net: &str) -> VillageTrading {
    VillageTrading {
        id: id.to_string(),
        trading: TradingSummary {
            total_trades: trades,
            buy_orders: buys,
            sell_orders: sells,
            executed_buys: buys,
            executed_sells: sells,
            total_spent: d(spent),
            total_earned: d(earned),
            net_profit: d(net),
        },
    }
}

#[test]
fn trade_flow_lists_the_villages_that_traded() {
    let villages = vec![
        trading("alpha", 3, 2, "30.5", 1, "12", "18.5"),
        trading("quiet", 0, 0, "0", 0, "0", "0"),
        trading("beta", 1, 0, "0", 1, "7.125", "-7.125"),
        trading("even", 2, 1, "5", 1, "5", "0.00"),
    ];
    let text = trade_flow_diagram(&villages, 6, "75.0");
    let expected = format!(
        "Trade Flow Summary\n{}\n\
         \nalpha\n─────\n  → SOLD: 2 orders (30.50 earned)\n  ← BOUGHT: 1 orders (12.00 spent)\n  ↑ NET: 18.50\n\
         \nbeta\n────\n  ← BOUGHT: 1 orders (7.12 spent)\n  ↓ NET: 7.12\n\
         \neven\n────\n  → SOLD: 1 orders (5.00 earned)\n  ← BOUGHT: 1 orders (5.00 spent)\n\
         \nTotal Market Volume: 6 trades\nTrade Success Rate: 75.0%\n",
        "═".repeat(50)
    );
    assert_eq!(text, expected);
}

#[test]
fn trade_flow_notes_when_nothing_traded() {
    let villages = vec![trading("quiet", 0, 0, "0", 0, "0", "0")];
    let text = trade_flow_diagram(&villages, 0, "0.0");
    assert_eq!(text, format!("Trade Flow Summary\n{}\n\nNo trades executed during simulation.\n", "═".repeat(50)));
    let none: Vec<VillageTrading> = Vec::new();
    assert!(trade_flow_diagram(&none, 0, "0.0").ends_with("No trades executed during simulation.\n"));
}

#[test]
fn trade_flow_underlines_by_byte_length() {
    let villages = vec![trading("é", 1, 1, "1", 0, "0", "1")];
    let text = trade_flow_diagram(&villages, 1, "100.0");
    assert!(text.contains("\né\n──\n"));
}
