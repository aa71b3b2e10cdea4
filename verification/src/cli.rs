//! What the command line changes in a scenario, and the warnings that a
//! scenario deserves before it runs.
use crate::decimal::{unit, Dec};
use crate::scenario::{Scenario, SimulationParameters, VillageConfig};
use vstd::prelude::*;

verus! {

/// The settings of the command line that override a scenario's.
#[derive(Clone, Copy, Debug)]
pub struct Overrides {
    pub days: Option<usize>,
    pub growth_delay: Option<usize>,
    pub random_seed: Option<u64>,
    pub initial_food: Option<Dec>,
    pub initial_wood: Option<Dec>,
    pub initial_money: Option<Dec>,
}

/// `o`'s value where it has one, else `d`.
pub open spec fn or_keep<T>(o: Option<T>, d: T) -> T {
    match o {
        Some(x) => x,
        None => d,
    }
}

/// The parameters with the days and the growth delay overridden.
pub open spec fn overridden_parameters(p: SimulationParameters, o: Overrides) -> SimulationParameters {
    SimulationParameters {
        days_to_simulate: or_keep(o.days, p.days_to_simulate),
        days_before_growth_chance: or_keep(o.growth_delay, p.days_before_growth_chance),
        ..p
    }
}

/// The village with its initial food, wood and money overridden.
pub open spec fn overridden_village(v: VillageConfig, o: Overrides) -> VillageConfig {
    VillageConfig {
        initial_food: or_keep(o.initial_food, v.initial_food),
        initial_wood: or_keep(o.initial_wood, v.initial_wood),
        initial_money: or_keep(o.initial_money, v.initial_money),
        ..v
    }
}

/// Sets, where the command line gives them, the days to simulate, the days
/// before growth, the random seed, and every village's initial food, wood
/// and money.
pub fn apply_overrides(scenario: &mut Scenario, args: &Overrides)
    ensures
        final(scenario).name == old(scenario).name,
        final(scenario).description == old(scenario).description,
        final(scenario).parameters == overridden_parameters(old(scenario).parameters, *args),
        final(scenario).random_seed == (match args.random_seed {
            Some(s) => Some(s),
            None => old(scenario).random_seed,
        }),
        final(scenario).villages@.len() == old(scenario).villages@.len(),
        forall|k: int|
            0 <= k < final(scenario).villages@.len() ==> #[trigger] final(scenario).villages@[k]
                == overridden_village(old(scenario).villages@[k], *args),
{
    if let Some(days) = args.days {
        scenario.parameters.days_to_simulate = days;
    }
    if let Some(delay) = args.growth_delay {
        scenario.parameters.days_before_growth_chance = delay;
    }
    if let Some(seed) = args.random_seed {
        scenario.random_seed = Some(seed);
    }
    let ghost before = scenario.villages@;
    let mut k: usize = 0;
    while k < scenario.villages.len()
        invariant
            k <= scenario.villages@.len(),
            scenario.villages@.len() == before.len(),
            scenario.name == old(scenario).name,
            scenario.description == old(scenario).description,
            scenario.parameters == overridden_parameters(old(scenario).parameters, *args),
            scenario.random_seed == (match args.random_seed {
                Some(s) => Some(s),
                None => old(scenario).random_seed,
            }),
            before == old(scenario).villages@,
            forall|j: int| 0 <= j < k ==> #[trigger] scenario.villages@[j] == overridden_village(before[j], *args),
            forall|j: int| k <= j < before.len() ==> #[trigger] scenario.villages@[j] == before[j],
        decreases before.len() - k,
    {
        let mut village = scenario.villages.remove(k);
        if let Some(food) = args.initial_food {
            village.initial_food = food;
        }
        if let Some(wood) = args.initial_wood {
            village.initial_wood = wood;
        }
        if let Some(money) = args.initial_money {
            village.initial_money = money;
        }
        scenario.villages.insert(k, village);
        k = k + 1;
    }
}

/// Something about a scenario that may spoil its run.
#[derive(Clone, Copy, Debug, PartialEq, Eq, Structural)]
pub enum ScenarioWarning {
    /// Growth can only start after the last day; a longer run or a shorter
    /// delay is suggested.
    GrowthTooLate { growth_delay: usize, days: usize, suggested_days: usize, suggested_delay: usize },
    /// A village trades by strategy while every village has the same slots.
    SameSlots,
    /// The village at this position has less food than ten days for each
    /// worker.
    LowFood { village: usize, needed: usize },
    /// The village at this position has less than ten wood and fewer than
    /// two houses.
    LowWood { village: usize, needed: usize },
}

/// Whether a strategy named `trading` is among those given.
pub open spec fn names_trading(strategies: Seq<String>) -> bool {
    exists|i: int| 0 <= i < strategies.len() && (#[trigger] strategies[i])@ == "trading"@
}

/// Every village has the same slots as the next.
pub open spec fn same_slots(vs: Seq<VillageConfig>) -> bool {
    forall|i: int|
        0 <= i < vs.len() - 1 ==> (#[trigger] vs[i]).food_slots == vs[i + 1].food_slots
            && vs[i].wood_slots == vs[i + 1].wood_slots
}

/// The warnings about the first `n` villages: for each, low food, then low
/// wood.
pub open spec fn village_warnings(vs: Seq<VillageConfig>, n: nat) -> Seq<ScenarioWarning>
    decreases n,
{
    if n == 0 {
        Seq::empty()
    } else {
        let k = n - 1;
        let v = vs[k];
        let food = if v.initial_food.v() < v.initial_workers * 10 * unit() {
            seq![ScenarioWarning::LowFood { village: k as usize, needed: (v.initial_workers * 10) as usize }]
        } else {
            Seq::empty()
        };
        let wood = if v.initial_wood.v() < 10 * unit() && v.initial_houses < 2 {
            seq![ScenarioWarning::LowWood { village: k as usize, needed: 10 }]
        } else {
            Seq::empty()
        };
        village_warnings(vs, (n - 1) as nat) + food + wood
    }
}

/// The warnings about a scenario, in order: growth that cannot start in time,
/// identical slots when a strategy trades, then each village's low food and
/// low wood.
pub open spec fn warnings_of(s: Scenario, strategies: Seq<String>) -> Seq<ScenarioWarning> {
    let p = s.parameters;
    let growth = if p.days_before_growth_chance >= p.days_to_simulate {
        seq![
            ScenarioWarning::GrowthTooLate {
                growth_delay: p.days_before_growth_chance,
                days: p.days_to_simulate,
                suggested_days: (p.days_before_growth_chance + 100) as usize,
                suggested_delay: (p.days_to_simulate / 2) as usize,
            },
        ]
    } else {
        Seq::empty()
    };
    let slots = if names_trading(strategies) && same_slots(s.villages@) && s.villages@.len() > 1 {
        seq![ScenarioWarning::SameSlots]
    } else {
        Seq::empty()
    };
    growth + slots + village_warnings(s.villages@, s.villages@.len())
}

/// The numbers the warnings work out fit in a `usize`, and the stocks are
/// well formed.
pub open spec fn warnable(s: Scenario) -> bool {
    &&& s.parameters.days_before_growth_chance >= s.parameters.days_to_simulate
        ==> s.parameters.days_before_growth_chance + 100 <= usize::MAX
    &&& forall|k: int|
        0 <= k < s.villages@.len() ==> {
            let v = #[trigger] s.villages@[k];
            &&& v.initial_workers * 10 <= usize::MAX
            &&& v.initial_food.wf()
            &&& v.initial_wood.wf()
        }
}

/// Whether a strategy named `trading` is among those given.
fn trading_named(strategies: &Vec<String>) -> (r: bool)
    ensures
        r == names_trading(strategies@),
{
    let trading = String::from_str("trading");
    let mut i: usize = 0;
    while i < strategies.len()
        invariant
            i <= strategies@.len(),
            trading@ == "trading"@,
            forall|j: int| 0 <= j < i ==> (#[trigger] strategies@[j])@ != "trading"@,
        decreases strategies@.len() - i,
    {
        if strategies[i] == trading {
            return true;
        }
        i = i + 1;
    }
    false
}

/// Whether every village has the same slots as the next.
fn all_same_slots(vs: &Vec<VillageConfig>) -> (r: bool)
    ensures
        r == same_slots(vs@),
{
    let mut k: usize = 1;
    while k < vs.len()
        invariant
            1 <= k,
            k <= vs@.len() || vs@.len() == 0,
            forall|j: int| 0 <= j < k - 1 && j < vs@.len() - 1 ==> (#[trigger] vs@[j]).food_slots == vs@[j + 1].food_slots
                && vs@[j].wood_slots == vs@[j + 1].wood_slots,
        decreases vs@.len() - k,
    {
        let a = &vs[k - 1];
        let b = &vs[k];
        if !(a.food_slots.0 == b.food_slots.0 && a.food_slots.1 == b.food_slots.1 && a.wood_slots.0
            == b.wood_slots.0 && a.wood_slots.1 == b.wood_slots.1) {
            proof {
                assert(vs@[k - 1] == *a);
                assert(vs@[k as int] == *b);
            }
            return false;
        }
        k = k + 1;
    }
    true
}

/// The low food and low wood warnings, village by village.
fn village_warning_list(vs: &Vec<VillageConfig>) -> (r: Vec<ScenarioWarning>)
    requires
        forall|k: int|
            0 <= k < vs@.len() ==> {
                let v = #[trigger] vs@[k];
                &&& v.initial_workers * 10 <= usize::MAX
                &&& v.initial_food.wf()
                &&& v.initial_wood.wf()
            },
    ensures
        r@ == village_warnings(vs@, vs@.len()),
{
    let mut r: Vec<ScenarioWarning> = Vec::new();
    let ten = Dec::from_usize(10);
    let mut k: usize = 0;
    while k < vs.len()
        invariant
            k <= vs@.len(),
            forall|j: int|
                0 <= j < vs@.len() ==> {
                    let v = #[trigger] vs@[j];
                    &&& v.initial_workers * 10 <= usize::MAX
                    &&& v.initial_food.wf()
                    &&& v.initial_wood.wf()
                },
            ten.wf(),
            ten.v() == 10 * unit(),
            r@ == village_warnings(vs@, k as nat),
        decreases vs@.len() - k,
    {
        let v = &vs[k];
        let ghost before = r@;
        proof {
            assert(vs@[k as int] == *v);
        }
        let needed = v.initial_workers * 10;
        if v.initial_food.lt(&Dec::from_usize(needed)) {
            r.push(ScenarioWarning::LowFood { village: k, needed });
        }
        if v.initial_wood.lt(&ten) && v.initial_houses < 2 {
            r.push(ScenarioWarning::LowWood { village: k, needed: 10 });
        }
        proof {
            let food = if v.initial_food.v() < v.initial_workers * 10 * unit() {
                seq![ScenarioWarning::LowFood { village: k, needed }]
            } else {
                Seq::empty()
            };
            let wood = if v.initial_wood.v() < 10 * unit() && v.initial_houses < 2 {
                seq![ScenarioWarning::LowWood { village: k, needed: 10 }]
            } else {
                Seq::empty()
            };
            assert(r@ =~= before + food + wood);
        }
        k = k + 1;
    }
    r
}

/// What the scenario should be warned of before it runs.
pub fn scenario_warnings(scenario: &Scenario, strategies: &Vec<String>) -> (r: Vec<ScenarioWarning>)
    requires
        warnable(*scenario),
    ensures
        r@ == warnings_of(*scenario, strategies@),
{
    let mut r: Vec<ScenarioWarning> = Vec::new();
    let p = &scenario.parameters;
    if p.days_before_growth_chance >= p.days_to_simulate {
        r.push(
            ScenarioWarning::GrowthTooLate {
                growth_delay: p.days_before_growth_chance,
                days: p.days_to_simulate,
                suggested_days: p.days_before_growth_chance + 100,
                suggested_delay: p.days_to_simulate / 2,
            },
        );
    }
    if trading_named(strategies) && all_same_slots(&scenario.villages) && scenario.villages.len() > 1 {
        r.push(ScenarioWarning::SameSlots);
    }
    let mut rest = village_warning_list(&scenario.villages);
    let ghost head = r@;
    r.append(&mut rest);
    proof {
        assert(r@ =~= warnings_of(*scenario, strategies@));
    }
    r
}

} // verus!
