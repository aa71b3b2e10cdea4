use rust_decimal::Decimal;
use std::str::FromStr;
use village_model::decimal::Dec;
use village_model::scenario::{create_standard_scenarios, Scenario, StrategyConfig, VillageConfig};
use village_model::simulation::village_from_config;

fn d(s: &str) -> Dec {
    let x = Decimal::from_str(s).unwrap();
    Dec { mantissa: x.mantissa(), scale: x.scale() }
}

fn val(x: Dec) -> Decimal {
    Decimal::from_i128_with_scale(x.mantissa, x.scale)
}

#[test]
fn test_scenario_creation() {
    let mut scenario = Scenario::new("test_scenario".to_string());
    scenario.description = "A test scenario".to_string();
    let village = VillageConfig {
        id: "village_1".to_string(),
        initial_workers: 10,
        initial_houses: 2,
        initial_food: d("50.0"),
        initial_wood: d("50.0"),
        initial_money: d("100.0"),
        food_slots: (10, 10),
        wood_slots: (10, 10),
        strategy: StrategyConfig::default_config(),
    };
    scenario.add_village(village);
    assert_eq!(scenario.villages.len(), 1);
    assert_eq!(scenario.name, "test_scenario");
}

#[test]
fn test_scenario_validation() {
    let mut scenario = Scenario::new("invalid".to_string());
    assert!(scenario.validate().is_err());
    scenario.add_village(VillageConfig {
        id: "no_workers".to_string(),
        initial_workers: 0,
        initial_houses: 1,
        initial_food: d("10.0"),
        initial_wood: d("10.0"),
        initial_money: d("10.0"),
        food_slots: (1, 1),
        wood_slots: (1, 1),
        strategy: StrategyConfig::default_config(),
    });
    assert!(scenario.validate().is_err());
    scenario.villages[0].initial_workers = 5;
    assert!(scenario.validate().is_ok());
}

#[test]
fn validation_messages() {
    let mut scenario = Scenario::new("s".to_string());
    assert_eq!(scenario.validate(), Err("Scenario must have at least one village".to_string()));
    scenario.add_village(VillageConfig {
        id: "v".to_string(),
        initial_workers: 3,
        initial_houses: 1,
        initial_food: d("1"),
        initial_wood: d("1"),
        initial_money: d("1"),
        food_slots: (0, 1),
        wood_slots: (1, 1),
        strategy: StrategyConfig::default_config(),
    });
    assert_eq!(
        scenario.validate(),
        Err("Village v must have at least one slot for food and wood".to_string())
    );
    scenario.villages[0].initial_workers = 0;
    assert_eq!(scenario.validate(), Err("Village v must have at least one worker".to_string()));
}

#[test]
fn standard_scenarios() {
    let scenarios = create_standard_scenarios();
    let keys: Vec<&str> = scenarios.iter().map(|(k, _)| k.as_str()).collect();
    assert_eq!(keys, vec!["basic", "custom", "scarcity", "growth", "trading"]);
    let basic = &scenarios[0].1;
    assert_eq!(basic.name, "basic_two_villages");
    assert_eq!(basic.villages.len(), 2);
    assert_eq!(basic.villages[0].id, "village_a");
    assert_eq!(basic.villages[1].id, "village_b");
    assert_eq!(basic.parameters.days_to_simulate, 100);
    assert!(basic.validate().is_ok());
    let trading = &scenarios[4].1;
    assert_eq!(trading.parameters.days_to_simulate, 150);
    assert_eq!(trading.villages[0].wood_slots, (20, 10));
    assert_eq!(val(trading.villages[1].initial_food), Decimal::from(80));
    for (_, s) in &scenarios {
        assert!(s.validate().is_ok());
    }
}

#[test]
fn default_parameters() {
    let s = Scenario::new("p".to_string());
    assert_eq!(s.parameters.days_without_food_before_starvation, 10);
    assert_eq!(s.parameters.days_without_shelter_before_death, 30);
    assert_eq!(s.parameters.house_construction_days, 60);
    assert_eq!(val(s.parameters.growth_chance_per_day), Decimal::from_str("0.05").unwrap());
}

#[test]
fn village_starts_from_its_configuration() {
    let scenarios = create_standard_scenarios();
    let config = &scenarios[2].1.villages[0];
    let v = village_from_config(3, config);
    assert_eq!(v.id, 3);
    assert_eq!(v.id_str, "scarce_village");
    assert_eq!(v.workers.len(), 15);
    assert_eq!(v.houses.len(), 3);
    assert_eq!(v.wood_slots, (5, 5));
    assert_eq!(val(v.money), Decimal::from(50));
    assert_eq!(v.next_worker_id, 15);
}
