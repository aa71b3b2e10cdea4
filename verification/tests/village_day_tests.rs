use village_model::simulation::StrategyAdapter;
use village_model::strategies::{MarketState, StrategyKind, SurvivalStrategy};
use rust_decimal::Decimal;
use std::str::FromStr;
use village_model::decimal::Dec;
use village_model::events::{DeathCause, EventLogger, EventType};
use village_model::simulation::{allocation_matches, create_village, produced, update_village};
use village_model::village::{Allocation, House, Village, Worker};

fn d(s: &str) -> Dec {
    let x = Decimal::from_str(s).unwrap();
    Dec { mantissa: x.mantissa(), scale: x.scale() }
}

fn of(x: Decimal) -> Dec {
    Dec { mantissa: x.mantissa(), scale: x.scale() }
}

fn val(x: Dec) -> Decimal {
    Decimal::from_i128_with_scale(x.mantissa, x.scale)
}

fn dd(s: &str) -> Decimal {
    Decimal::from_str(s).unwrap()
}

fn village_with_slots(wood_slots: (u32, u32), food_slots: (u32, u32), workers: usize, houses: usize) -> Village {
    create_village(0, wood_slots, food_slots, workers, houses)
}

fn step_logged(village: &mut Village, wood: Decimal, food: Decimal, construction: Decimal, logger: &mut EventLogger) {
    let allocation = Allocation { wood: of(wood), food: of(food), house_construction: of(construction) };
    assert!(allocation_matches(village, &allocation), "allocation does not add up to the worker-days");
    update_village(village, allocation, logger, 0);
}

fn step(village: &mut Village, wood: Decimal, food: Decimal, construction: Decimal) {
    let mut logger = EventLogger::new();
    step_logged(village, wood, food, construction, &mut logger);
}

fn worker_days(v: &Village) -> Decimal {
    val(v.worker_days())
}

/// Splits the worker-days: `a` to food, `b` to wood (both capped), the rest to construction.
fn split(v: &Village, a: &str, b: &str) -> (Decimal, Decimal, Decimal) {
    let wd = worker_days(v);
    let food = (wd * dd(a)).min(wd);
    let wood = (wd * dd(b)).min(wd - food);
    (wood, food, wd - food - wood)
}

#[test]
fn test_village_update_basic_production() {
    let mut village = village_with_slots((2, 0), (1, 0), 3, 0);
    step(&mut village, dd("2.0"), dd("1.0"), dd("0.0"));
    assert_eq!(val(village.wood), dd("100.2"));
    assert_eq!(val(village.food), dd("99.0"));
}

#[test]
fn test_village_update_partial_slots() {
    let mut village = village_with_slots((1, 1), (1, 1), 3, 0);
    step(&mut village, dd("3.0"), dd("0.0"), dd("0.0"));
    assert_eq!(val(village.wood), dd("100.15"));
}

#[test]
fn test_village_update_worker_states() {
    let mut village = village_with_slots((1, 0), (1, 0), 1, 1);
    assert_eq!(village.workers[0].days_without_food, 0);
    assert_eq!(village.workers[0].days_without_shelter, 0);
    assert_eq!(village.workers[0].days_with_both, 0);
    step(&mut village, dd("1.0"), dd("0.0"), dd("0.0"));
    assert_eq!(village.workers[0].days_without_food, 0);
    assert_eq!(village.workers[0].days_without_shelter, 0);
    assert_eq!(village.workers[0].days_with_both, 1);
}

#[test]
fn test_village_update_no_resources() {
    let mut village = village_with_slots((0, 1), (1, 0), 1, 1);
    village.wood = d("0.0");
    village.food = d("0.0");
    step(&mut village, dd("1.0"), dd("0.0"), dd("0.0"));
    assert_eq!(village.workers[0].days_without_food, 1);
    assert_eq!(village.workers[0].days_without_shelter, 0);
    assert_eq!(village.workers[0].days_with_both, 0);
    assert_eq!(val(village.houses[0].maintenance_level), dd("-0.1"));
}

#[test]
fn test_house_maintenance_no_wood() {
    let mut village = village_with_slots((1, 0), (1, 0), 1, 1);
    village.wood = d("0.0");
    step(&mut village, dd("0.0"), dd("1.0"), dd("0.0"));
    assert_eq!(val(village.houses[0].maintenance_level), dd("-0.1"));
}

#[test]
fn test_house_maintenance_with_production() {
    let mut village = village_with_slots((2, 0), (1, 0), 2, 1);
    village.wood = d("0.0");
    step(&mut village, dd("2.0"), dd("0.0"), dd("0.0"));
    assert_eq!(val(village.houses[0].maintenance_level), dd("0.0"));
    assert_eq!(val(village.wood), dd("0.1"));
}

#[test]
fn test_house_maintenance_repair() {
    let mut village = village_with_slots((2, 0), (1, 0), 2, 1);
    village.wood = d("0.0");
    village.houses[0].maintenance_level = d("-2.0");
    step(&mut village, dd("2.0"), dd("0.0"), dd("0.0"));
    assert_eq!(val(village.houses[0].maintenance_level), dd("-1.9"));
    assert_eq!(val(village.wood), dd("0.0"));
}

#[test]
fn test_worker_death_no_shelter() {
    let mut village = village_with_slots((1, 0), (1, 0), 1, 0);
    for day in 1..=30 {
        let wd = worker_days(&village);
        step(&mut village, wd, dd("0.0"), dd("0.0"));
        if day < 30 {
            assert_eq!(village.workers.len(), 1, "Worker died too early on day {}", day);
            assert_eq!(village.workers[0].days_without_shelter, day as u32);
        }
    }
    assert_eq!(village.workers.len(), 0, "Worker should die after 30 days without shelter");
}

#[test]
fn test_worker_death_starvation() {
    let mut village = village_with_slots((1, 0), (1, 0), 1, 1);
    village.food = d("0.0");
    for day in 1..=10 {
        let wd = worker_days(&village);
        step(&mut village, wd, dd("0.0"), dd("0.0"));
        if day < 10 {
            assert_eq!(village.workers.len(), 1, "Worker died too early on day {}", day);
            assert_eq!(village.workers[0].days_without_food, day as u32);
        }
    }
    assert_eq!(village.workers.len(), 0, "Worker should die after 10 days without food");
}

#[test]
fn test_house_construction_basic() {
    let mut village = village_with_slots((0, 0), (0, 0), 65, 0);
    village.food = d("1000.0");
    village.wood = d("20.0");
    let wd = worker_days(&village);
    step(&mut village, dd("0.0"), dd("0.0"), wd);
    assert_eq!(village.houses.len(), 1);
    assert_eq!(val(village.wood), dd("9.9"));
    assert_eq!(val(village.construction_progress), wd - dd("60.0"));
}

#[test]
fn test_house_construction_insufficient_wood() {
    let mut village = village_with_slots((0, 0), (0, 0), 70, 0);
    village.wood = d("5.0");
    let wd = worker_days(&village);
    step(&mut village, dd("0.0"), dd("0.0"), wd);
    assert_eq!(village.houses.len(), 0);
    assert_eq!(val(village.wood), dd("5.0"));
    assert_eq!(val(village.construction_progress), wd);
}

#[test]
fn test_village_lifecycle_30_days() {
    let mut village = village_with_slots((10, 10), (10, 10), 10, 2);
    village.wood = d("50.0");
    village.food = d("50.0");
    let initial_workers = village.workers.len();
    let initial_houses = village.houses.len();
    for day in 1..=30 {
        let (wood, food, construction) = split(&village, "0.4", "0.4");
        step(&mut village, wood, food, construction);
        assert!(village.workers.len() > 0, "All workers died by day {}", day);
        assert!(val(village.food) >= dd("0.0"), "Food went negative on day {}", day);
        assert!(val(village.wood) >= dd("0.0"), "Wood went negative on day {}", day);
    }
    assert!(
        village.workers.len() >= initial_workers,
        "Village lost workers: {} -> {}",
        initial_workers,
        village.workers.len()
    );
    assert!(
        village.houses.len() >= initial_houses,
        "Village lost houses: {} -> {}",
        initial_houses,
        village.houses.len()
    );
}

#[test]
fn test_starvation_scenario() {
    let mut village = village_with_slots((10, 10), (0, 0), 15, 3);
    village.wood = d("100.0");
    village.food = d("30.0");
    let mut death_days = Vec::new();
    for day in 1..=15 {
        let initial_workers = village.workers.len();
        let wd = worker_days(&village);
        step(&mut village, wd, dd("0.0"), dd("0.0"));
        if village.workers.len() < initial_workers {
            death_days.push(day);
        }
    }
    assert!(!death_days.is_empty(), "No workers died despite no food production");
    assert!(
        death_days[0] >= 11 && death_days[0] <= 13,
        "First death on day {}, expected around day 12",
        death_days[0]
    );
    assert_eq!(village.workers.len(), 0, "Some workers survived without food production");
}

#[test]
fn test_economic_growth() {
    let mut village = village_with_slots((20, 20), (20, 20), 10, 2);
    village.wood = d("200.0");
    village.food = d("200.0");
    for _day in 1..=200 {
        let (wood, food, construction) = split(&village, "0.5", "0.3");
        step(&mut village, wood, food, construction);
    }
    assert!(village.workers.len() >= 10, "Population declined after 200 days: {} workers", village.workers.len());
    assert!(village.houses.len() >= 2, "Houses declined after 200 days: {} houses", village.houses.len());
    let final_population = village.workers.len();
    let initial_population = 10;
    assert!(
        final_population >= initial_population,
        "Population declined from {} to {}",
        initial_population,
        final_population
    );
}

#[test]
fn test_resource_scarcity_adaptation() {
    let mut village = village_with_slots((2, 2), (2, 2), 20, 4);
    village.wood = d("30.0");
    village.food = d("30.0");
    let mut population_stable = false;
    for day in 1..=100 {
        let (wood, food, construction) = split(&village, "0.6", "0.3");
        step(&mut village, wood, food, construction);
        if day > 50 && village.workers.len() <= 10 {
            population_stable = true;
        }
    }
    assert!(
        population_stable || village.workers.len() <= 10,
        "Population didn't stabilize to sustainable level: {} workers remain",
        village.workers.len()
    );
    assert!(village.workers.len() > 0, "Village went extinct despite having some production capacity");
}

#[test]
fn test_multi_village_trading_simulation() {
    let mut wood_village = create_village(0, (20, 10), (5, 5), 10, 2);
    wood_village.wood = d("50.0");
    wood_village.food = d("20.0");
    let mut food_village = create_village(1, (5, 5), (20, 10), 10, 2);
    food_village.wood = d("20.0");
    food_village.food = d("50.0");
    for day in 1..=50 {
        let wd = worker_days(&wood_village);
        step(&mut wood_village, wd * dd("0.8"), wd * dd("0.2"), dd("0.0"));
        let fd = worker_days(&food_village);
        step(&mut food_village, fd * dd("0.2"), fd * dd("0.8"), dd("0.0"));
        if day % 5 == 0 && val(wood_village.wood) > dd("10.0") && val(food_village.food) > dd("10.0") {
            wood_village.wood = of(val(wood_village.wood) - dd("10.0"));
            wood_village.food = of(val(wood_village.food) + dd("10.0"));
            food_village.wood = of(val(food_village.wood) + dd("10.0"));
            food_village.food = of(val(food_village.food) - dd("10.0"));
        }
    }
    assert!(wood_village.workers.len() > 0, "Wood village died despite trading");
    assert!(food_village.workers.len() > 0, "Food village died despite trading");
    assert!(val(wood_village.wood) > val(wood_village.food), "Wood village lost its specialization");
    assert!(val(food_village.food) > val(food_village.wood), "Food village lost its specialization");
}

#[test]
fn test_disaster_recovery() {
    let mut village = village_with_slots((15, 15), (15, 15), 20, 5);
    village.wood = d("200.0");
    village.food = d("200.0");
    for _ in 1..=50 {
        let wd = worker_days(&village);
        step(&mut village, wd * dd("0.4"), wd * dd("0.4"), wd * dd("0.2"));
    }
    let pre_disaster_houses = village.houses.len();
    let half = village.workers.len() / 2;
    village.workers.truncate(half);
    for house in village.houses.iter_mut() {
        house.maintenance_level = d("-3.0");
    }
    for _ in 1..=100 {
        let wd = worker_days(&village);
        step(&mut village, wd * dd("0.5"), wd * dd("0.4"), wd * dd("0.1"));
    }
    assert!(village.workers.len() > village.workers.len() / 2, "Village didn't recover population after disaster");
    let damaged_houses = village.houses.iter().filter(|h| val(h.maintenance_level) < dd("0.0")).count();
    assert!(damaged_houses < pre_disaster_houses / 2, "Most houses still damaged after recovery period");
}

#[test]
fn test_worker_productivity_impact() {
    let mut healthy_village = village_with_slots((10, 10), (10, 10), 10, 3);
    let mut struggling_village = village_with_slots((10, 10), (10, 10), 10, 1);
    healthy_village.wood = d("100.0");
    healthy_village.food = d("100.0");
    struggling_village.wood = d("10.0");
    struggling_village.food = d("10.0");
    let mut healthy_production = dd("0.0");
    let mut struggling_production = dd("0.0");
    for _ in 1..=10 {
        let healthy_wd = worker_days(&healthy_village);
        let struggling_wd = worker_days(&struggling_village);
        step(&mut healthy_village, healthy_wd * dd("0.5"), healthy_wd * dd("0.5"), dd("0.0"));
        step(&mut struggling_village, struggling_wd * dd("0.5"), struggling_wd * dd("0.5"), dd("0.0"));
        healthy_production += healthy_wd;
        struggling_production += struggling_wd;
    }
    let healthy_avg = healthy_production / dd("10.0") / Decimal::from(healthy_village.workers.len());
    let struggling_avg =
        struggling_production / dd("10.0") / Decimal::from(struggling_village.workers.len().max(1));
    assert!(
        healthy_avg > struggling_avg,
        "Healthy workers not more productive: {:.2} vs {:.2}",
        healthy_avg,
        struggling_avg
    );
}

#[test]
fn productivity_drops_without_food_or_shelter() {
    let mut w = Worker { id: 0, days_without_food: 0, days_without_shelter: 0, days_with_both: 0, spawn_eligible: false };
    assert_eq!(val(w.productivity()), dd("1.0"));
    w.days_without_food = 2;
    assert_eq!(val(w.productivity()), dd("0.8"));
    w.days_without_shelter = 1;
    assert_eq!(val(w.productivity()), dd("0.6"));
}

#[test]
fn shelter_effect_loses_a_place_per_whole_point_of_neglect() {
    let h = |m: &str| House { id: 0, maintenance_level: d(m) };
    assert_eq!(val(h("0.0").shelter_effect()), dd("5"));
    assert_eq!(val(h("-0.9").shelter_effect()), dd("5"));
    assert_eq!(val(h("-1.0").shelter_effect()), dd("4"));
    assert_eq!(val(h("-2.5").shelter_effect()), dd("3"));
    assert_eq!(val(h("-9.0").shelter_effect()), dd("0"));
}

#[test]
fn diminishing_returns_per_slot() {
    // First-rate slots give the full rate, second-rate slots half, the rest nothing.
    assert_eq!(val(produced((2, 1), d("2.0"), d("1.5"))), dd("3.0"));
    assert_eq!(val(produced((2, 1), d("2.0"), d("3"))), dd("5.0"));
    assert_eq!(val(produced((2, 1), d("2.0"), d("9"))), dd("5.0"));
    assert_eq!(val(produced((0, 0), d("0.1"), d("4"))), dd("0"));
}

#[test]
fn deaths_and_day_counts_are_logged() {
    let mut village = village_with_slots((1, 0), (1, 0), 1, 1);
    village.food = d("0.0");
    village.workers[0].days_without_food = 9;
    let mut logger = EventLogger::new();
    let wd = worker_days(&village);
    step_logged(&mut village, wd, dd("0.0"), dd("0.0"), &mut logger);
    assert!(village.workers.is_empty());
    let died = logger.get_events().iter().any(|e| {
        matches!(e.event_type, EventType::WorkerDied { worker_id: 0, cause: DeathCause::Starvation, total_population: 0 })
    });
    assert!(died);
    let last = logger.get_events().last().unwrap();
    assert!(matches!(last.event_type, EventType::VillageStateSnapshot { population: 0, houses: 1, .. }));
}

#[test]
fn allocation_must_add_up() {
    let village = village_with_slots((1, 0), (1, 0), 2, 1);
    let wrong = Allocation { wood: d("1"), food: d("0"), house_construction: d("0") };
    assert!(!allocation_matches(&village, &wrong));
    let right = Allocation { wood: d("1.9995"), food: d("0"), house_construction: d("0") };
    assert!(allocation_matches(&village, &right));
}

#[test]
fn checked_strategy_answers_as_the_strategy_does() {
    let village = village_with_slots((2, 1), (2, 1), 5, 1);
    let market = MarketState { last_wood_price: Some(d("5.0")), last_food_price: Some(d("1.0")) };
    let adapter = StrategyAdapter::new(StrategyKind::Survival(SurvivalStrategy::default_strategy()));
    let checked = adapter.checked_allocation_and_orders(&village, &market).expect("an ordinary village");
    let plain = adapter.get_allocation_and_orders(&village, &market);
    assert_eq!(val(checked.0.food), val(plain.0.food));
    assert_eq!(val(checked.0.wood), val(plain.0.wood));
    assert_eq!(val(checked.0.house_construction), val(plain.0.house_construction));
    assert_eq!(checked.1.len(), plain.1.len());
    let mut rich = village_with_slots((2, 1), (2, 1), 5, 1);
    rich.food = d("1000000000000000");
    assert!(adapter.checked_allocation_and_orders(&rich, &market).is_none());
}
