use rust_decimal::Decimal;
use std::str::FromStr;
use village_model::cli::{apply_overrides, scenario_warnings, Overrides, ScenarioWarning};
use village_model::decimal::Dec;
use village_model::scenario::{Scenario, StrategyConfig, VillageConfig};

fn d(s: &str) -> Dec {
    let x = Decimal::from_str(s).unwrap();
    Dec { mantissa: x.mantissa(), scale: x.scale() }
}

fn val(x: Dec) -> Decimal {
    Decimal::from_i128_with_scale(x.mantissa, x.scale)
}

fn village(id: &str, workers: usize, houses: usize, food: &str, wood: &str, slots: usize) -> VillageConfig {
    VillageConfig {
        id: id.to_string(),
        initial_workers: workers,
        initial_houses: houses,
        initial_food: d(food),
        initial_wood: d(wood),
        initial_money: d("100"),
        food_slots: (slots, 1),
        wood_slots: (slots, 1),
        strategy: StrategyConfig::default_config(),
    }
}

fn no_overrides() -> Overrides {
    Overrides { days: None, growth_delay: None, random_seed: None, initial_food: None, initial_wood: None, initial_money: None }
}

#[test]
fn overrides_replace_only_what_is_given() {
    let mut s = Scenario::new("s".to_string());
    s.add_village(village("a", 5, 1, "50", "20", 2));
    s.add_village(village("b", 5, 1, "60", "30", 2));
    let o = Overrides { days: Some(365), initial_wood: Some(d("7.5")), ..no_overrides() };
    apply_overrides(&mut s, &o);
    assert_eq!(s.parameters.days_to_simulate, 365);
    assert_eq!(s.parameters.days_before_growth_chance, 100);
    assert_eq!(s.random_seed, None);
    assert_eq!(val(s.villages[0].initial_wood), Decimal::from_str("7.5").unwrap());
    assert_eq!(val(s.villages[1].initial_wood), Decimal::from_str("7.5").unwrap());
    assert_eq!(val(s.villages[0].initial_food), Decimal::from(50));
    assert_eq!(val(s.villages[1].initial_food), Decimal::from(60));
}

#[test]
fn overrides_set_the_seed_and_the_growth_delay() {
    let mut s = Scenario::new("s".to_string());
    let o = Overrides { growth_delay: Some(20), random_seed: Some(42), initial_money: Some(d("1")), ..no_overrides() };
    apply_overrides(&mut s, &o);
    assert_eq!(s.parameters.days_before_growth_chance, 20);
    assert_eq!(s.parameters.days_to_simulate, 100);
    assert_eq!(s.random_seed, Some(42));
}

#[test]
fn warnings_for_late_growth_and_poor_villages() {
    let mut s = Scenario::new("s".to_string());
    // Growth after 100 days in a 100-day run.
    s.add_village(village("a", 5, 1, "40", "5", 2));
    s.add_village(village("b", 2, 2, "20", "5", 2));
    let w = scenario_warnings(&s, &vec![]);
    assert_eq!(
        w,
        vec![
            ScenarioWarning::GrowthTooLate { growth_delay: 100, days: 100, suggested_days: 200, suggested_delay: 50 },
            ScenarioWarning::LowFood { village: 0, needed: 50 },
            ScenarioWarning::LowWood { village: 0, needed: 10 },
        ]
    );
}

#[test]
fn warning_for_identical_slots_only_when_trading() {
    let mut s = Scenario::new("s".to_string());
    s.parameters.days_to_simulate = 365;
    s.add_village(village("a", 1, 2, "50", "50", 2));
    s.add_village(village("b", 1, 2, "50", "50", 2));
    assert_eq!(scenario_warnings(&s, &vec!["balanced".to_string()]), vec![]);
    assert_eq!(
        scenario_warnings(&s, &vec!["balanced".to_string(), "trading".to_string()]),
        vec![ScenarioWarning::SameSlots]
    );
    s.villages[1].food_slots = (3, 1);
    assert_eq!(scenario_warnings(&s, &vec!["trading".to_string()]), vec![]);
}
