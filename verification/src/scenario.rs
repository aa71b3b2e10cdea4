//! Scenarios: the simulation's parameters and the villages it starts with.
use crate::decimal::Dec;
use vstd::prelude::*;

verus! {

/// The simulation's parameters. The two rates are decimals here; they are
/// read from and written to files as floating-point numbers.
#[derive(Clone, Debug)]
pub struct SimulationParameters {
    pub days_to_simulate: usize,
    pub days_without_food_before_starvation: usize,
    pub days_without_shelter_before_death: usize,
    pub days_before_growth_chance: usize,
    pub growth_chance_per_day: Dec,
    pub house_construction_days: usize,
    pub house_construction_wood: Dec,
    pub house_capacity: usize,
    pub house_decay_rate: Dec,
    pub base_food_production: Dec,
    pub base_wood_production: Dec,
    pub second_slot_productivity: Dec,
}

impl SimulationParameters {
    /// 100 days; starvation after 10 days, exposure after 30; growth after
    /// 100 days at 5% a day; a house takes 60 days and 10 wood, shelters 5 and
    /// decays by 1; production 1 per slot, 0.75 on second-rate slots.
    pub fn default_parameters() -> (r: Self)
        ensures
            r == Self::default_parameters_spec(),
    {
        SimulationParameters {
            days_to_simulate: 100,
            days_without_food_before_starvation: 10,
            days_without_shelter_before_death: 30,
            days_before_growth_chance: 100,
            growth_chance_per_day: Dec::new(5, 2),
            house_construction_days: 60,
            house_construction_wood: Dec::new(10, 0),
            house_capacity: 5,
            house_decay_rate: Dec::new(1, 0),
            base_food_production: Dec::new(1, 0),
            base_wood_production: Dec::new(1, 0),
            second_slot_productivity: Dec::new(75, 2),
        }
    }
}

/// How a village decides; the weights and the trading figures are decimals
/// here, floating-point numbers in files.
#[derive(Clone, Debug)]
pub enum StrategyConfig {
    Balanced { food_weight: Dec, wood_weight: Dec, construction_weight: Dec, repair_weight: Dec },
    Survival { min_food_days: usize, min_shelter_buffer: usize },
    Growth { target_population: usize, house_buffer: usize },
    Trading { price_multiplier: Dec, max_trade_fraction: Dec },
}

impl StrategyConfig {
    /// Balanced, with every weight 0.25.
    pub fn default_config() -> (r: Self)
        ensures
            r == (StrategyConfig::Balanced {
                food_weight: Dec { mantissa: 25, scale: 2 },
                wood_weight: Dec { mantissa: 25, scale: 2 },
                construction_weight: Dec { mantissa: 25, scale: 2 },
                repair_weight: Dec { mantissa: 25, scale: 2 },
            }),
    {
        StrategyConfig::Balanced {
            food_weight: Dec::new(25, 2),
            wood_weight: Dec::new(25, 2),
            construction_weight: Dec::new(25, 2),
            repair_weight: Dec::new(25, 2),
        }
    }
}

/// A village as a scenario starts it.
#[derive(Debug)]
pub struct VillageConfig {
    pub id: String,
    pub initial_workers: usize,
    pub initial_houses: usize,
    pub initial_food: Dec,
    pub initial_wood: Dec,
    pub initial_money: Dec,
    pub food_slots: (usize, usize),
    pub wood_slots: (usize, usize),
    pub strategy: StrategyConfig,
}

impl Clone for VillageConfig {
    fn clone(&self) -> (r: Self)
        ensures
            r.id@ == self.id@,
            r.initial_workers == self.initial_workers,
            r.initial_houses == self.initial_houses,
            r.initial_food == self.initial_food,
            r.initial_wood == self.initial_wood,
            r.initial_money == self.initial_money,
            r.food_slots == self.food_slots,
            r.wood_slots == self.wood_slots,
    {
        VillageConfig {
            id: self.id.clone(),
            initial_workers: self.initial_workers,
            initial_houses: self.initial_houses,
            initial_food: self.initial_food,
            initial_wood: self.initial_wood,
            initial_money: self.initial_money,
            food_slots: (self.food_slots.0, self.food_slots.1),
            wood_slots: (self.wood_slots.0, self.wood_slots.1),
            strategy: self.strategy.clone(),
        }
    }
}

/// A named scenario.
#[derive(Clone, Debug)]
pub struct Scenario {
    pub name: String,
    pub description: String,
    pub parameters: SimulationParameters,
    pub villages: Vec<VillageConfig>,
    pub random_seed: Option<u64>,
}

/// A village without workers, or without a first-rate slot for food or wood.
pub open spec fn unfit(v: VillageConfig) -> bool {
    v.initial_workers == 0 || v.food_slots.0 == 0 || v.wood_slots.0 == 0
}

/// The message for the first unfit village.
pub open spec fn unfit_message(v: VillageConfig) -> Seq<char> {
    if v.initial_workers == 0 {
        "Village "@ + v.id@ + " must have at least one worker"@
    } else {
        "Village "@ + v.id@ + " must have at least one slot for food and wood"@
    }
}

impl Scenario {
    /// An empty scenario with the default parameters.
    pub fn new(name: String) -> (r: Self)
        ensures
            r.name == name,
            r.description@ == Seq::<char>::empty(),
            r.parameters == SimulationParameters::default_parameters_spec(),
            r.villages@ == Seq::<VillageConfig>::empty(),
            r.random_seed is None,
    {
        Scenario {
            name,
            description: String::new(),
            parameters: SimulationParameters::default_parameters(),
            villages: Vec::new(),
            random_seed: None,
        }
    }

    pub fn add_village(&mut self, config: VillageConfig)
        ensures
            final(self).villages@ == old(self).villages@.push(config),
            final(self).name == old(self).name,
            final(self).description == old(self).description,
            final(self).parameters == old(self).parameters,
            final(self).random_seed == old(self).random_seed,
    {
        self.villages.push(config);
    }

    /// `Ok` when there is a village and every village has a worker and a
    /// first-rate slot for food and for wood; else the error for the first
    /// problem found.
    pub fn validate(&self) -> (r: Result<(), String>)
        ensures
            self.villages@.len() == 0 ==> (r matches Err(m) && m@ == "Scenario must have at least one village"@),
            self.villages@.len() > 0 && (forall|k: int| 0 <= k < self.villages@.len() ==> !unfit(#[trigger] self.villages@[k])) ==> r is Ok,
            r is Ok ==> self.villages@.len() > 0,
            forall|j: int|
                0 <= j < self.villages@.len() && unfit(#[trigger] self.villages@[j]) && (forall|k: int|
                    0 <= k < j ==> !unfit(#[trigger] self.villages@[k])) ==> (r matches Err(m) && m@
                    == unfit_message(self.villages@[j])),
    {
        if self.villages.len() == 0 {
            return Err(String::from_str("Scenario must have at least one village"));
        }
        let mut i: usize = 0;
        while i < self.villages.len()
            invariant
                i <= self.villages@.len(),
                forall|k: int| 0 <= k < i ==> !unfit(#[trigger] self.villages@[k]),
            decreases self.villages@.len() - i,
        {
            let village = &self.villages[i];
            if village.initial_workers == 0 {
                let m = String::from_str("Village ").concat(village.id.as_str()).concat(
                    " must have at least one worker",
                );
                return Err(m);
            }
            if village.food_slots.0 == 0 || village.wood_slots.0 == 0 {
                let m = String::from_str("Village ").concat(village.id.as_str()).concat(
                    " must have at least one slot for food and wood",
                );
                return Err(m);
            }
            i = i + 1;
        }
        Ok(())
    }
}

impl SimulationParameters {
    pub open spec fn default_parameters_spec() -> Self {
        SimulationParameters {
            days_to_simulate: 100,
            days_without_food_before_starvation: 10,
            days_without_shelter_before_death: 30,
            days_before_growth_chance: 100,
            growth_chance_per_day: Dec { mantissa: 5, scale: 2 },
            house_construction_days: 60,
            house_construction_wood: Dec { mantissa: 10, scale: 0 },
            house_capacity: 5,
            house_decay_rate: Dec { mantissa: 1, scale: 0 },
            base_food_production: Dec { mantissa: 1, scale: 0 },
            base_wood_production: Dec { mantissa: 1, scale: 0 },
            second_slot_productivity: Dec { mantissa: 75, scale: 2 },
        }
    }
}

/// `c` starts village `id` with the given counts, stocks, slots and strategy.
pub open spec fn starts_as(
    c: VillageConfig,
    id: Seq<char>,
    workers: usize,
    houses: usize,
    food: i64,
    wood: i64,
    money: i64,
    food_slots: (usize, usize),
    wood_slots: (usize, usize),
    strategy: StrategyConfig,
) -> bool {
    &&& c.id@ == id
    &&& c.initial_workers == workers
    &&& c.initial_houses == houses
    &&& c.initial_food == Dec { mantissa: food as i128, scale: 0 }
    &&& c.initial_wood == Dec { mantissa: wood as i128, scale: 0 }
    &&& c.initial_money == Dec { mantissa: money as i128, scale: 0 }
    &&& c.food_slots == food_slots
    &&& c.wood_slots == wood_slots
    &&& c.strategy == strategy
}

/// The configuration of village `id`.
fn village_config(
    id: &str,
    workers: usize,
    houses: usize,
    food: i64,
    wood: i64,
    money: i64,
    food_slots: (usize, usize),
    wood_slots: (usize, usize),
    strategy: StrategyConfig,
) -> (r: VillageConfig)
    ensures
        starts_as(r, id@, workers, houses, food, wood, money, food_slots, wood_slots, strategy),
{
    VillageConfig {
        id: String::from_str(id),
        initial_workers: workers,
        initial_houses: houses,
        initial_food: Dec::new(food, 0),
        initial_wood: Dec::new(wood, 0),
        initial_money: Dec::new(money, 0),
        food_slots,
        wood_slots,
        strategy,
    }
}

/// The default strategy configuration, as a value.
pub open spec fn balanced_quarters() -> StrategyConfig {
    StrategyConfig::Balanced {
        food_weight: Dec { mantissa: 25, scale: 2 },
        wood_weight: Dec { mantissa: 25, scale: 2 },
        construction_weight: Dec { mantissa: 25, scale: 2 },
        repair_weight: Dec { mantissa: 25, scale: 2 },
    }
}

/// Trading with multiplier 1 and half the stock tradable.
pub open spec fn even_trading() -> StrategyConfig {
    StrategyConfig::Trading {
        price_multiplier: Dec { mantissa: 1, scale: 0 },
        max_trade_fraction: Dec { mantissa: 5, scale: 1 },
    }
}

/// `s` is scenario `name`, described by `description`, run for `days`, with
/// the default parameters otherwise and no seed.
pub open spec fn framed_as(s: Scenario, name: Seq<char>, description: Seq<char>, days: usize) -> bool {
    &&& s.name@ == name
    &&& s.description@ == description
    &&& s.parameters == (SimulationParameters { days_to_simulate: days, ..SimulationParameters::default_parameters_spec() })
    &&& s.random_seed is None
}

/// The standard scenarios, each under its key: `basic` (two balanced villages
/// of 10 workers), `custom` (the same, for 200 days), `scarcity` (one village
/// of 15 with few slots, surviving), `growth` (one village of 5 with many
/// slots, growing, for 200 days) and `trading` (a wood and a food specialist,
/// trading, for 150 days).
pub fn create_standard_scenarios() -> (r: Vec<(String, Scenario)>)
    ensures
        r@.len() == 5,
        r@[0].0@ == "basic"@,
        framed_as(r@[0].1, "basic_two_villages"@, "Two villages with balanced strategies"@, 100),
        r@[0].1.villages@.len() == 2,
        starts_as(r@[0].1.villages@[0], "village_a"@, 10, 2, 50, 50, 100, (10, 10), (10, 10), balanced_quarters()),
        starts_as(r@[0].1.villages@[1], "village_b"@, 10, 2, 50, 50, 100, (10, 10), (10, 10), balanced_quarters()),
        r@[1].0@ == "custom"@,
        framed_as(r@[1].1, "custom"@, "Villages with CLI-specified strategies"@, 200),
        r@[1].1.villages@.len() == 2,
        starts_as(r@[1].1.villages@[0], "village_1"@, 10, 2, 50, 50, 100, (10, 10), (10, 10), balanced_quarters()),
        starts_as(r@[1].1.villages@[1], "village_2"@, 10, 2, 50, 50, 100, (10, 10), (10, 10), balanced_quarters()),
        r@[2].0@ == "scarcity"@,
        framed_as(r@[2].1, "resource_scarcity"@, "Villages with limited production slots"@, 100),
        r@[2].1.villages@.len() == 1,
        starts_as(r@[2].1.villages@[0], "scarce_village"@, 15, 3, 30, 30, 50, (5, 5), (5, 5), StrategyConfig::Survival { min_food_days: 15, min_shelter_buffer: 2 }),
        r@[3].0@ == "growth"@,
        framed_as(r@[3].1, "growth_focused"@, "Villages optimized for population growth"@, 200),
        r@[3].1.villages@.len() == 1,
        starts_as(r@[3].1.villages@[0], "growth_village"@, 5, 2, 100, 100, 200, (20, 20), (20, 20), StrategyConfig::Growth { target_population: 50, house_buffer: 3 }),
        r@[4].0@ == "trading"@,
        framed_as(r@[4].1, "trading"@, "Villages specialized for trading"@, 150),
        r@[4].1.villages@.len() == 2,
        starts_as(r@[4].1.villages@[0], "wood_specialist"@, 10, 2, 30, 80, 100, (5, 5), (20, 10), even_trading()),
        starts_as(r@[4].1.villages@[1], "food_specialist"@, 10, 2, 80, 30, 100, (20, 10), (5, 5), even_trading()),
{
    let mut scenarios: Vec<(String, Scenario)> = Vec::new();

    let mut basic = Scenario::new(String::from_str("basic_two_villages"));
    basic.description = String::from_str("Two villages with balanced strategies");
    basic.add_village(village_config("village_a", 10, 2, 50, 50, 100, (10, 10), (10, 10), StrategyConfig::default_config()));
    basic.add_village(village_config("village_b", 10, 2, 50, 50, 100, (10, 10), (10, 10), StrategyConfig::default_config()));
    scenarios.push((String::from_str("basic"), basic));

    let mut custom = Scenario::new(String::from_str("custom"));
    custom.description = String::from_str("Villages with CLI-specified strategies");
    custom.parameters.days_to_simulate = 200;
    custom.add_village(village_config("village_1", 10, 2, 50, 50, 100, (10, 10), (10, 10), StrategyConfig::default_config()));
    custom.add_village(village_config("village_2", 10, 2, 50, 50, 100, (10, 10), (10, 10), StrategyConfig::default_config()));
    scenarios.push((String::from_str("custom"), custom));

    let mut scarcity = Scenario::new(String::from_str("resource_scarcity"));
    scarcity.description = String::from_str("Villages with limited production slots");
    scarcity.add_village(village_config("scarce_village", 15, 3, 30, 30, 50, (5, 5), (5, 5),
        StrategyConfig::Survival { min_food_days: 15, min_shelter_buffer: 2 }));
    scenarios.push((String::from_str("scarcity"), scarcity));

    let mut growth = Scenario::new(String::from_str("growth_focused"));
    growth.description = String::from_str("Villages optimized for population growth");
    growth.parameters.days_to_simulate = 200;
    growth.add_village(village_config("growth_village", 5, 2, 100, 100, 200, (20, 20), (20, 20),
        StrategyConfig::Growth { target_population: 50, house_buffer: 3 }));
    scenarios.push((String::from_str("growth"), growth));

    let mut trading = Scenario::new(String::from_str("trading"));
    trading.description = String::from_str("Villages specialized for trading");
    trading.parameters.days_to_simulate = 150;
    trading.add_village(village_config("wood_specialist", 10, 2, 30, 80, 100, (5, 5), (20, 10),
        StrategyConfig::Trading { price_multiplier: Dec::new(1, 0), max_trade_fraction: Dec::new(5, 1) }));
    trading.add_village(village_config("food_specialist", 10, 2, 80, 30, 100, (20, 10), (5, 5),
        StrategyConfig::Trading { price_multiplier: Dec::new(1, 0), max_trade_fraction: Dec::new(5, 1) }));
    scenarios.push((String::from_str("trading"), trading));

    scenarios
}

} // verus!
