use rust_decimal::Decimal;
use std::str::FromStr;
use village_model::decimal::Dec;
use village_model::scenario::StrategyConfig;
use village_model::strategies::{
    create_strategy, create_strategy_by_name, BalancedStrategy, GreedyStrategy, GrowthStrategy,
    MarketState, Strategy, StrategyKind, SurvivalStrategy, TradingStrategy, VillageState,
};

fn d(s: &str) -> Dec {
    let x = Decimal::from_str(s).unwrap();
    Dec { mantissa: x.mantissa(), scale: x.scale() }
}

fn val(x: Dec) -> Decimal {
    Decimal::from_i128_with_scale(x.mantissa, x.scale)
}

fn dd(s: &str) -> Decimal {
    Decimal::from_str(s).unwrap()
}

fn create_test_village(id: &str, workers: usize, food: &str, wood: &str, money: &str) -> VillageState {
    VillageState {
        id: id.to_string(),
        workers,
        wood: d(wood),
        food: d(food),
        money: d(money),
        house_capacity: workers * 2,
        houses: workers / 5 + 1,
        wood_slots: (10, 10),
        food_slots: (10, 10),
        worker_days: Dec { mantissa: workers as i128, scale: 0 },
        days_without_food: vec![0; workers],
        days_without_shelter: vec![0; workers],
        construction_progress: d("0"),
    }
}

fn create_test_market(wood_price: Option<&str>, food_price: Option<&str>) -> MarketState {
    MarketState { last_wood_price: wood_price.map(d), last_food_price: food_price.map(d) }
}

#[test]
fn test_survival_strategy_prioritizes_resources() {
    let strategy = SurvivalStrategy::new(20, 10);
    let village = create_test_village("test", 10, "5.0", "5.0", "100.0");
    let market = create_test_market(Some("5.0"), Some("1.0"));
    let decision = strategy.decide_allocation_and_orders(&village, &market);
    println!(
        "Survival allocation: food={}, wood={}, construction={}",
        val(decision.allocation.food),
        val(decision.allocation.wood),
        val(decision.allocation.construction)
    );
    assert!(val(decision.allocation.food) > dd("0"), "Should allocate to food production");
    assert!(
        val(decision.allocation.food) + val(decision.allocation.wood) > dd("0"),
        "Should allocate to resource production"
    );
    assert!(decision.food_bid.is_some(), "Should bid for food when low");
    assert!(
        decision.food_bid.is_some() || decision.wood_bid.is_some(),
        "Should participate in market when resources are low"
    );
}

#[test]
fn test_growth_strategy_builds_houses() {
    let strategy = GrowthStrategy::new(50, 3);
    let village = create_test_village("test", 10, "100.0", "100.0", "200.0");
    let market = create_test_market(Some("5.0"), Some("1.0"));
    let decision = strategy.decide_allocation_and_orders(&village, &market);
    println!(
        "Growth allocation: food={}, wood={}, construction={}",
        val(decision.allocation.food),
        val(decision.allocation.wood),
        val(decision.allocation.construction)
    );
    assert!(val(decision.allocation.food) > dd("0"), "Should produce food");
    assert!(val(decision.allocation.wood) > dd("0"), "Should produce wood");
    assert!(val(decision.allocation.food) > dd("0"), "Should produce food");
    assert!(val(decision.allocation.wood) > dd("0"), "Should produce wood");
}

#[test]
fn test_trading_strategy_specializes() {
    // Test food specialization
    let mut village_food = create_test_village("food_village", 10, "50.0", "50.0", "100.0");
    village_food.food_slots = (20, 10);
    village_food.wood_slots = (5, 5);
    let strategy_food = TradingStrategy::new(d("1.0"), d("0.3"));
    let market = create_test_market(Some("5.0"), Some("1.0"));
    let decision_food = strategy_food.decide_allocation_and_orders(&village_food, &market);
    // Should allocate mostly to food
    assert!(val(decision_food.allocation.food) > val(decision_food.allocation.wood) * dd("3"));
    // Should offer to sell food
    assert!(decision_food.food_ask.is_some(), "Food specialist should sell food");

    // Test wood specialization
    let mut village_wood = create_test_village("wood_village", 10, "50.0", "50.0", "100.0");
    village_wood.food_slots = (5, 5);
    village_wood.wood_slots = (20, 10);
    let strategy_wood = TradingStrategy::new(d("1.0"), d("0.3"));
    let decision_wood = strategy_wood.decide_allocation_and_orders(&village_wood, &market);
    // Should allocate mostly to wood
    assert!(val(decision_wood.allocation.wood) > val(decision_wood.allocation.food) * dd("3"));
    // Should offer to sell wood
    assert!(decision_wood.wood_ask.is_some(), "Wood specialist should sell wood");
}

#[test]
fn trading_specialist_split_and_offer() {
    // A tenth to construction, 80% of the rest to the specialty; the food
    // specialist offers 30% of its 50 food at 1.02 times the market price.
    let mut village_food = create_test_village("food_village", 10, "50.0", "50.0", "100.0");
    village_food.food_slots = (20, 10);
    village_food.wood_slots = (5, 5);
    let strategy = TradingStrategy::new(d("1.0"), d("0.3"));
    let market = create_test_market(Some("5.0"), Some("1.0"));
    let decision = strategy.decide_allocation_and_orders(&village_food, &market);
    assert_eq!(val(decision.allocation.construction), dd("1.0"));
    assert_eq!(val(decision.allocation.food), dd("7.2"));
    assert_eq!(val(decision.allocation.wood), dd("1.8"));
    assert_eq!(decision.food_ask.map(|(p, q)| (val(p), q)), Some((dd("1.02"), 15)));
    // With as many slots for both, food, cheaper at the margin, gets 70%.
    let even = create_test_village("even", 10, "50.0", "50.0", "100.0");
    let decision_even = strategy.decide_allocation_and_orders(&even, &market);
    assert_eq!(val(decision_even.allocation.food), dd("6.3"));
    assert_eq!(val(decision_even.allocation.wood), dd("2.7"));
    assert!(decision_even.food_ask.is_none());
}

#[test]
fn test_balanced_strategy_adapts() {
    let strategy = BalancedStrategy::new(d("0.25"), d("0.25"), d("0.25"), d("0.25"));
    let mut village = create_test_village("test", 10, "5.0", "100.0", "100.0");
    let market = create_test_market(Some("5.0"), Some("1.0"));
    let decision = strategy.decide_allocation_and_orders(&village, &market);
    assert!(val(decision.allocation.food) > val(decision.allocation.wood));
    village.food = d("100");
    village.wood = d("5");
    let decision2 = strategy.decide_allocation_and_orders(&village, &market);
    assert!(val(decision2.allocation.wood) > val(decision2.allocation.food));
}

#[test]
fn test_greedy_strategy_maximizes_value() {
    let strategy = GreedyStrategy;
    let village = create_test_village("test", 10, "50.0", "50.0", "100.0");
    let market_wood_high = create_test_market(Some("10.0"), Some("1.0"));
    let decision = strategy.decide_allocation_and_orders(&village, &market_wood_high);
    println!(
        "Greedy allocation (wood high): food={}, wood={}, construction={}",
        val(decision.allocation.food),
        val(decision.allocation.wood),
        val(decision.allocation.construction)
    );
    assert_eq!(val(decision.allocation.construction), dd("0"), "Greedy never builds");
    let market_food_high = create_test_market(Some("1.0"), Some("5.0"));
    let decision2 = strategy.decide_allocation_and_orders(&village, &market_food_high);
    println!(
        "Greedy allocation (food high): food={}, wood={}, construction={}",
        val(decision2.allocation.food),
        val(decision2.allocation.wood),
        val(decision2.allocation.construction)
    );
}

fn all_strategies() -> Vec<StrategyKind> {
    vec![
        StrategyKind::Survival(SurvivalStrategy::default_strategy()),
        StrategyKind::Growth(GrowthStrategy::default_strategy()),
        StrategyKind::Trading(TradingStrategy::default_strategy()),
        StrategyKind::Balanced(BalancedStrategy::default_strategy()),
        StrategyKind::Greedy(GreedyStrategy),
    ]
}

#[test]
fn test_strategies_handle_edge_cases() {
    let strategies = all_strategies();
    let empty_village = create_test_village("empty", 0, "0.0", "0.0", "0.0");
    let market = create_test_market(None, None);
    for strategy in &strategies {
        let decision = strategy.decide_allocation_and_orders(&empty_village, &market);
        assert_eq!(val(decision.allocation.food), dd("0"));
        assert_eq!(val(decision.allocation.wood), dd("0"));
        assert_eq!(val(decision.allocation.construction), dd("0"));
    }
    let broke_village = create_test_village("broke", 10, "100.0", "100.0", "0.0");
    for strategy in &strategies {
        let decision = strategy.decide_allocation_and_orders(&broke_village, &market);
        assert!(decision.food_bid.is_none() || decision.food_bid.unwrap().1 == 0);
        assert!(decision.wood_bid.is_none() || decision.wood_bid.unwrap().1 == 0);
    }
}

#[test]
fn allocations_use_exactly_the_worker_days() {
    let village = create_test_village("v", 10, "30.0", "30.0", "100.0");
    let market = create_test_market(Some("5.0"), Some("1.0"));
    for strategy in all_strategies() {
        let a = strategy.decide_allocation_and_orders(&village, &market).allocation;
        let total = val(a.food) + val(a.wood) + val(a.construction);
        assert!((total - dd("10")).abs() < dd("0.001"), "{} splits {}", strategy.name(), total);
    }
}

#[test]
fn strategies_by_name() {
    assert_eq!(create_strategy_by_name("survival").name(), "Survival");
    assert_eq!(create_strategy_by_name("GROWTH").name(), "Growth");
    assert_eq!(create_strategy_by_name("Trading").name(), "Trading");
    assert_eq!(create_strategy_by_name("balanced").name(), "Balanced");
    assert_eq!(create_strategy_by_name("greedy").name(), "Greedy");
    assert_eq!(create_strategy_by_name("nonsense").name(), "Default");
}

#[test]
fn strategies_from_config() {
    let s = create_strategy(&StrategyConfig::Survival { min_food_days: 15, min_shelter_buffer: 2 });
    match s {
        StrategyKind::Survival(inner) => {
            assert_eq!(inner.min_food_days, 15);
        }
        _ => panic!("expected a survival strategy"),
    }
    assert_eq!(create_strategy(&StrategyConfig::default_config()).name(), "Balanced");
}

#[test]
fn default_strategy_fixed_shares() {
    let village = create_test_village("v", 10, "30.0", "30.0", "100.0");
    let market = create_test_market(None, None);
    let decision = create_strategy_by_name("default").decide_allocation_and_orders(&village, &market);
    assert_eq!(val(decision.allocation.wood), dd("7"));
    assert_eq!(val(decision.allocation.food), dd("2"));
    assert_eq!(val(decision.allocation.construction), dd("1"));
    assert!(decision.food_bid.is_none() && decision.wood_ask.is_none());
}

#[test]
fn strategies_accept_ordinary_villages() {
    let village = create_test_village("v", 10, "30.0", "30.0", "100.0");
    let market = create_test_market(Some("5.0"), Some("1.0"));
    for strategy in all_strategies() {
        assert!(strategy.accepts_check(&village, &market), "{}", strategy.name());
    }
}

#[test]
fn balanced_refuses_weights_that_add_up_to_nothing() {
    let zero = BalancedStrategy::new(d("0"), d("0"), d("0"), d("0"));
    let village = create_test_village("v", 10, "30.0", "30.0", "100.0");
    let market = create_test_market(None, None);
    assert!(!StrategyKind::Balanced(zero).accepts_check(&village, &market));
}

#[test]
fn survival_refuses_a_food_target_below_the_stock() {
    // Three days of food, a target of two: the days still short cannot be counted.
    let strategy = StrategyKind::Survival(SurvivalStrategy::new(2, 10));
    let village = create_test_village("v", 10, "30.0", "300.0", "100.0");
    let market = create_test_market(None, None);
    assert!(!strategy.accepts_check(&village, &market));
    let fine = StrategyKind::Survival(SurvivalStrategy::new(20, 10));
    assert!(fine.accepts_check(&village, &market));
}

#[test]
fn trading_refuses_a_vanishing_food_price() {
    let strategy = StrategyKind::Trading(TradingStrategy::default_strategy());
    let village = create_test_village("v", 10, "30.0", "30.0", "100.0");
    assert!(!strategy.accepts_check(&village, &create_test_market(Some("5.0"), Some("0.00000000000000000001"))));
    assert!(strategy.accepts_check(&village, &create_test_market(Some("5.0"), Some("0.01"))));
}

#[test]
fn growth_builds_above_target_occupancy() {
    // Four workers per house is above the target of 3.5: 30% wood, 50% food,
    // 20% construction.
    let strategy = GrowthStrategy::default_strategy();
    let mut village = create_test_village("crowded", 16, "100.0", "50.0", "100.0");
    village.houses = 4;
    village.house_capacity = 20;
    let market = create_test_market(None, None);
    let decision = strategy.decide_allocation_and_orders(&village, &market);
    assert_eq!(val(decision.allocation.wood), dd("4.8"));
    assert_eq!(val(decision.allocation.food), dd("8.0"));
    assert_eq!(val(decision.allocation.construction), dd("3.2"));
    // Three workers per house with room to spare: no construction.
    let mut roomy = create_test_village("roomy", 9, "100.0", "50.0", "100.0");
    roomy.houses = 3;
    roomy.house_capacity = 15;
    let decision_roomy = strategy.decide_allocation_and_orders(&roomy, &market);
    assert_eq!(val(decision_roomy.allocation.construction), dd("0"));
}

#[test]
fn survival_builds_with_stable_buffers() {
    // Fifty days of food and over three hundred of wood: a tenth of the
    // worker-days goes to construction, food and wood share the rest.
    let strategy = SurvivalStrategy::default_strategy();
    let mut village = create_test_village("stocked", 10, "500.0", "100.0", "100.0");
    village.houses = 3;
    let market = create_test_market(None, None);
    let decision = strategy.decide_allocation_and_orders(&village, &market);
    let a = decision.allocation;
    assert_eq!(val(a.construction), dd("1.0"));
    assert_eq!(val(a.food) + val(a.wood) + val(a.construction), dd("10"));
    assert!(val(a.food) > val(a.wood));
}
