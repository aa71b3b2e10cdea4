//! What a village's events add up to: births and deaths, what it produced,
//! consumed and traded, and how its population went. The scores derived from
//! these counts are computed with floating point by the caller.
use crate::decimal::{
    abs_int, dec_add, dec_div, dec_mul, dec_sub, decimal_difference, decimal_product,
    decimal_quotient, decimal_sum, lemma_abs_mul_le, lemma_product_size, lemma_rounded_size,
    lemma_unit, lemma_v_sign, limit, unit, Dec, MAX_MANTISSA,
};
use crate::events::{DeathCause, Event, EventType, ResourceType, TradeSide};
use crate::simulation::whole;
use vstd::prelude::*;

verus! {

/// Counts and totals over a village's events.
#[derive(Clone, Copy, Debug)]
pub struct Tally {
    pub final_population: usize,
    pub peak_population: usize,
    pub total_births: usize,
    pub total_deaths: usize,
    pub starvation_deaths: usize,
    pub shelter_deaths: usize,
    pub total_food_produced: Dec,
    pub total_wood_produced: Dec,
    pub total_food_consumed: Dec,
    pub total_wood_consumed: Dec,
    pub houses_built: usize,
    pub final_houses: usize,
    pub trades_executed: usize,
    pub trade_volume: Dec,
    pub trade_profit: Dec,
    pub days_survived: usize,
    pub maintenance_sum: Dec,
    pub maintenance_count: usize,
}

/// A village's tally with the population after each birth and death.
#[derive(Debug)]
pub struct VillageTally {
    pub village_id: String,
    pub initial_population: usize,
    pub counts: Tally,
    /// The mean maintenance level that decaying houses were left at; zero
    /// when none decayed.
    pub average_house_maintenance: Dec,
    /// The initial population, then the population after each birth and
    /// each death, in order.
    pub population_history: Vec<usize>,
}

/// Computes village tallies.
pub struct MetricsCalculator;

pub open spec fn zero_dec() -> Dec {
    Dec { mantissa: 0, scale: 0 }
}

/// Before any event: the initial population is the peak, the village lasts
/// all the days, and everything else is zero.
pub open spec fn empty_tally(initial_population: usize, days: usize) -> Tally {
    Tally {
        final_population: 0,
        peak_population: initial_population,
        total_births: 0,
        total_deaths: 0,
        starvation_deaths: 0,
        shelter_deaths: 0,
        total_food_produced: zero_dec(),
        total_wood_produced: zero_dec(),
        total_food_consumed: zero_dec(),
        total_wood_consumed: zero_dec(),
        houses_built: 0,
        final_houses: 0,
        trades_executed: 0,
        trade_volume: zero_dec(),
        trade_profit: zero_dec(),
        days_survived: days,
        maintenance_sum: zero_dec(),
        maintenance_count: 0,
    }
}

/// The tally after one more event of the village: births and deaths are
/// counted (deaths by cause) and raise the peak; production, consumption and
/// trades are added up, a sale adding its value to the profit and a purchase
/// taking it away; completed houses are counted; decayed houses add their
/// level to the maintenance sum; a state snapshot sets the final population
/// and houses, and a snapshot with nobody left ends the days survived.
pub open spec fn tally_step(t: Tally, e: Event) -> Tally {
    match e.event_type {
        EventType::WorkerBorn { total_population, .. } => Tally {
            total_births: (t.total_births + 1) as usize,
            peak_population: if total_population > t.peak_population {
                total_population
            } else {
                t.peak_population
            },
            ..t
        },
        EventType::WorkerDied { cause, .. } => Tally {
            total_deaths: (t.total_deaths + 1) as usize,
            starvation_deaths: if cause == DeathCause::Starvation {
                (t.starvation_deaths + 1) as usize
            } else {
                t.starvation_deaths
            },
            shelter_deaths: if cause == DeathCause::NoShelter {
                (t.shelter_deaths + 1) as usize
            } else {
                t.shelter_deaths
            },
            ..t
        },
        EventType::ResourceProduced { resource, amount, .. } => if resource == ResourceType::Food {
            Tally { total_food_produced: decimal_sum(t.total_food_produced, amount), ..t }
        } else {
            Tally { total_wood_produced: decimal_sum(t.total_wood_produced, amount), ..t }
        },
        EventType::ResourceConsumed { resource, amount, .. } => if resource == ResourceType::Food {
            Tally { total_food_consumed: decimal_sum(t.total_food_consumed, amount), ..t }
        } else {
            Tally { total_wood_consumed: decimal_sum(t.total_wood_consumed, amount), ..t }
        },
        EventType::HouseCompleted { total_houses, .. } => Tally {
            houses_built: (t.houses_built + 1) as usize,
            final_houses: total_houses,
            ..t
        },
        EventType::HouseDecayed { maintenance_level, .. } => Tally {
            maintenance_sum: decimal_sum(t.maintenance_sum, maintenance_level),
            maintenance_count: (t.maintenance_count + 1) as usize,
            ..t
        },
        EventType::TradeExecuted { quantity, price, side, .. } => Tally {
            trades_executed: (t.trades_executed + 1) as usize,
            trade_volume: decimal_sum(t.trade_volume, quantity),
            trade_profit: if side == TradeSide::Sell {
                decimal_sum(t.trade_profit, decimal_product(quantity, price))
            } else {
                decimal_difference(t.trade_profit, decimal_product(quantity, price))
            },
            ..t
        },
        EventType::VillageStateSnapshot { population, houses, .. } => Tally {
            final_population: population,
            final_houses: houses,
            days_survived: if population == 0 {
                e.tick
            } else {
                t.days_survived
            },
            ..t
        },
        _ => t,
    }
}

/// The tally of the village's events among the first `n`.
pub open spec fn tally_of(
    events: Seq<Event>,
    id: Seq<char>,
    initial_population: usize,
    days: usize,
    n: nat,
) -> Tally
    decreases n,
{
    if n == 0 {
        empty_tally(initial_population, days)
    } else {
        let prev = tally_of(events, id, initial_population, days, (n - 1) as nat);
        if events[n - 1].village_id@ == id {
            tally_step(prev, events[n - 1])
        } else {
            prev
        }
    }
}

/// The initial population, then the population after each birth and each
/// death of the village among the first `n` events.
pub open spec fn history_of(events: Seq<Event>, id: Seq<char>, initial_population: usize, n: nat) -> Seq<
    usize,
>
    decreases n,
{
    if n == 0 {
        seq![initial_population]
    } else {
        let prev = history_of(events, id, initial_population, (n - 1) as nat);
        if events[n - 1].village_id@ == id {
            match events[n - 1].event_type {
                EventType::WorkerBorn { total_population, .. } => prev.push(total_population),
                EventType::WorkerDied { total_population, .. } => prev.push(total_population),
                _ => prev,
            }
        } else {
            prev
        }
    }
}

/// A decimal of magnitude at most a billion.
pub open spec fn small(d: Dec) -> bool {
    d.wf() && abs_int(d.v()) <= 1000000000 * unit()
}

/// The decimals that a tally adds up are small.
pub open spec fn tallyable_event(t: EventType) -> bool {
    match t {
        EventType::ResourceProduced { amount, .. } => small(amount),
        EventType::ResourceConsumed { amount, .. } => small(amount),
        EventType::HouseDecayed { maintenance_level, .. } => small(maintenance_level),
        EventType::TradeExecuted { quantity, price, .. } => small(quantity) && small(price),
        _ => true,
    }
}

/// At most a billion events, each with small decimals: enough room that no
/// total overflows.
pub open spec fn tallyable(events: Seq<Event>) -> bool {
    &&& events.len() <= 1000000000
    &&& forall|i: int| 0 <= i < events.len() ==> tallyable_event(#[trigger] events[i].event_type)
}

/// How large a running total can get after `i` events.
pub open spec fn total_bound(i: int) -> int {
    i * 20000000000000000000000000000000000000000000000
}

/// Adds `x` to, or takes it from, a running total.
pub(crate) fn accumulate(sum: Dec, x: Dec, plus: bool, Ghost(i): Ghost<int>) -> (r: Dec)
    requires
        0 <= i < 1000000000,
        sum.wf(),
        abs_int(sum.v()) <= total_bound(i),
        x.wf(),
        abs_int(x.v()) <= 1000000000000000001 * unit(),
    ensures
        r == (if plus {
            decimal_sum(sum, x)
        } else {
            decimal_difference(sum, x)
        }),
        r.wf(),
        abs_int(r.v()) <= total_bound(i + 1),
{
    proof {
        lemma_unit();
        assert(total_bound(i) <= 999999999 * 20000000000000000000000000000000000000000000000) by (nonlinear_arith)
            requires
                0 <= i <= 999999999,
                total_bound(i) == i * 20000000000000000000000000000000000000000000000,
        ;
        assert(total_bound(i + 1) == total_bound(i) + 20000000000000000000000000000000000000000000000) by (nonlinear_arith)
            requires
                total_bound(i) == i * 20000000000000000000000000000000000000000000000,
                total_bound(i + 1) == (i + 1) * 20000000000000000000000000000000000000000000000,
        ;
    }
    if plus {
        let r = dec_add(sum, x);
        proof {
            lemma_rounded_size(sum.v() + x.v(), r);
        }
        r
    } else {
        let r = dec_sub(sum, x);
        proof {
            lemma_rounded_size(sum.v() - x.v(), r);
        }
        r
    }
}

/// The product of two small decimals, such as a trade's quantity and price.
pub(crate) fn small_product(quantity: Dec, price: Dec) -> (r: Dec)
    requires
        small(quantity),
        small(price),
    ensures
        r == decimal_product(quantity, price),
        r.wf(),
        abs_int(r.v()) <= 1000000000000000001 * unit(),
{
    proof {
        lemma_unit();
        lemma_abs_mul_le(quantity.v(), price.v(), 1000000000 * unit(), 1000000000 * unit());
        assert((1000000000 * unit()) * (1000000000 * unit()) <= limit() * unit()) by (nonlinear_arith)
            requires
                unit() == 10000000000000000000000000000,
                limit() == (MAX_MANTISSA - 1) * unit(),
                MAX_MANTISSA == 79228162514264337593543950335,
        ;
    }
    let r = dec_mul(quantity, price);
    proof {
        lemma_product_size(quantity, price, r);
        assert(abs_int(r.v()) <= 1000000000000000001 * unit()) by (nonlinear_arith)
            requires
                abs_int(r.v()) * unit() <= abs_int(quantity.v() * price.v()) + unit() * unit(),
                abs_int(quantity.v() * price.v()) <= (1000000000 * unit()) * (1000000000 * unit()),
                unit() > 0,
        ;
    }
    r
}

impl MetricsCalculator {
    /// Goes through the events of the village, in order, and adds them up.
    pub fn tally_village(
        village_id: &str,
        events: &[Event],
        initial_population: usize,
        days_simulated: usize,
    ) -> (r: VillageTally)
        requires
            tallyable(events@),
        ensures
            r.village_id@ == village_id@,
            r.initial_population == initial_population,
            r.counts == tally_of(events@, village_id@, initial_population, days_simulated, events@.len()),
            r.population_history@ == history_of(events@, village_id@, initial_population, events@.len()),
            r.average_house_maintenance == (if r.counts.maintenance_count > 0 {
                decimal_quotient(r.counts.maintenance_sum, whole(r.counts.maintenance_count as int))
            } else {
                zero_dec()
            }),
    {
        proof {
            lemma_unit();
        }
        let zero = Dec::new(0, 0);
        let mut t = Tally {
            final_population: 0,
            peak_population: initial_population,
            total_births: 0,
            total_deaths: 0,
            starvation_deaths: 0,
            shelter_deaths: 0,
            total_food_produced: zero,
            total_wood_produced: zero,
            total_food_consumed: zero,
            total_wood_consumed: zero,
            houses_built: 0,
            final_houses: 0,
            trades_executed: 0,
            trade_volume: zero,
            trade_profit: zero,
            days_survived: days_simulated,
            maintenance_sum: zero,
            maintenance_count: 0,
        };
        let mut history: Vec<usize> = Vec::new();
        history.push(initial_population);
        let ghost id = village_id@;
        let target = String::from_str(village_id);
        let mut i: usize = 0;
        while i < events.len()
            invariant
                i <= events@.len(),
                tallyable(events@),
                id == village_id@,
                target@ == id,
                t == tally_of(events@, id, initial_population, days_simulated, i as nat),
                history@ == history_of(events@, id, initial_population, i as nat),
                t.total_births <= i,
                t.total_deaths <= i,
                t.starvation_deaths <= i,
                t.shelter_deaths <= i,
                t.houses_built <= i,
                t.trades_executed <= i,
                t.maintenance_count <= i,
                t.total_food_produced.wf(),
                t.total_wood_produced.wf(),
                t.total_food_consumed.wf(),
                t.total_wood_consumed.wf(),
                t.trade_volume.wf(),
                t.trade_profit.wf(),
                t.maintenance_sum.wf(),
                abs_int(t.total_food_produced.v()) <= total_bound(i as int),
                abs_int(t.total_wood_produced.v()) <= total_bound(i as int),
                abs_int(t.total_food_consumed.v()) <= total_bound(i as int),
                abs_int(t.total_wood_consumed.v()) <= total_bound(i as int),
                abs_int(t.trade_volume.v()) <= total_bound(i as int),
                abs_int(t.trade_profit.v()) <= total_bound(i as int),
                abs_int(t.maintenance_sum.v()) <= total_bound(i as int),
            decreases events@.len() - i,
        {
            let e = &events[i];
            let ghost t0 = t;
            let ghost h0 = history@;
            proof {
                assert(tallyable_event(events@[i as int].event_type));
                assert(total_bound(i as int) <= total_bound(i + 1)) by (nonlinear_arith)
                    requires
                        i >= 0,
                        total_bound(i as int) == i * 20000000000000000000000000000000000000000000000,
                        total_bound(i + 1) == (i + 1) * 20000000000000000000000000000000000000000000000,
                ;
                assert(1000000000 * unit() <= 1000000000000000001 * unit());
            }
            if e.village_id == target {
                match &e.event_type {
                    EventType::WorkerBorn { total_population, .. } => {
                        t.total_births = t.total_births + 1;
                        if *total_population > t.peak_population {
                            t.peak_population = *total_population;
                        }
                        history.push(*total_population);
                    },
                    EventType::WorkerDied { cause, total_population, .. } => {
                        t.total_deaths = t.total_deaths + 1;
                        match cause {
                            DeathCause::Starvation => {
                                t.starvation_deaths = t.starvation_deaths + 1;
                            },
                            DeathCause::NoShelter => {
                                t.shelter_deaths = t.shelter_deaths + 1;
                            },
                        }
                        history.push(*total_population);
                    },
                    EventType::ResourceProduced { resource, amount, .. } => match resource {
                        ResourceType::Food => {
                            t.total_food_produced = accumulate(t.total_food_produced, *amount, true, Ghost(i as int));
                        },
                        ResourceType::Wood => {
                            t.total_wood_produced = accumulate(t.total_wood_produced, *amount, true, Ghost(i as int));
                        },
                    },
                    EventType::ResourceConsumed { resource, amount, .. } => match resource {
                        ResourceType::Food => {
                            t.total_food_consumed = accumulate(t.total_food_consumed, *amount, true, Ghost(i as int));
                        },
                        ResourceType::Wood => {
                            t.total_wood_consumed = accumulate(t.total_wood_consumed, *amount, true, Ghost(i as int));
                        },
                    },
                    EventType::HouseCompleted { total_houses, .. } => {
                        t.houses_built = t.houses_built + 1;
                        t.final_houses = *total_houses;
                    },
                    EventType::HouseDecayed { maintenance_level, .. } => {
                        t.maintenance_sum = accumulate(t.maintenance_sum, *maintenance_level, true, Ghost(i as int));
                        t.maintenance_count = t.maintenance_count + 1;
                    },
                    EventType::TradeExecuted { quantity, price, side, .. } => {
                        t.trades_executed = t.trades_executed + 1;
                        t.trade_volume = accumulate(t.trade_volume, *quantity, true, Ghost(i as int));
                        let value = small_product(*quantity, *price);
                        match side {
                            TradeSide::Sell => {
                                t.trade_profit = accumulate(t.trade_profit, value, true, Ghost(i as int));
                            },
                            TradeSide::Buy => {
                                t.trade_profit = accumulate(t.trade_profit, value, false, Ghost(i as int));
                            },
                        }
                    },
                    EventType::VillageStateSnapshot { population, houses, .. } => {
                        t.final_population = *population;
                        t.final_houses = *houses;
                        if *population == 0 {
                            t.days_survived = e.tick;
                        }
                    },
                    _ => {},
                }
                proof {
                    assert(t == tally_step(t0, events@[i as int]));
                }
            }
            proof {
                assert(history@ == history_of(events@, id, initial_population, (i + 1) as nat));
            }
            i = i + 1;
        }
        let average = if t.maintenance_count > 0 {
            let count = Dec::from_usize(t.maintenance_count);
            proof {
                lemma_v_sign(count);
                assert(abs_int(t.maintenance_sum.v()) <= (MAX_MANTISSA - 1) * abs_int(count.v())) by (nonlinear_arith)
                    requires
                        abs_int(t.maintenance_sum.v()) <= i * 20000000000000000000000000000000000000000000000,
                        i <= 1000000000,
                        count.v() >= unit(),
                        unit() == 10000000000000000000000000000,
                ;
            }
            dec_div(t.maintenance_sum, count)
        } else {
            zero
        };
        VillageTally {
            village_id: String::from_str(village_id),
            initial_population,
            counts: t,
            average_house_maintenance: average,
            population_history: history,
        }
    }
}

} // verus!
