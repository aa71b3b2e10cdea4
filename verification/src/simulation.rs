//! One day of village life: production, construction, feeding and sheltering
//! workers, births and deaths, house upkeep, and the settling of trades.
use crate::decimal::{
    abs_int, dec_add, dec_mul, dec_sub, dec_to_u32, dec_to_u64, decimal_difference, decimal_product,
    decimal_sum, dmin, lemma_abs_mul_le, lemma_exact_sum, lemma_rounded_nonneg, lemma_unit, lemma_v_sign, limit, pow10,
    unit, Dec, MAX_MANTISSA,
};
use crate::events::{
    ConsumptionPurpose, DeathCause, Event, TradeSide, appended, lemma_appended_none, lemma_appended_trans, rec, EventLogger, EventType, Record,
};
use crate::auction::{FinalFill, OrderType};
use crate::scenario::VillageConfig;
use crate::strategies::{MarketState, StrategyDecision, StrategyKind, VillageState};
use crate::types::{
    participant_number, resource_named, OrderRequest, ResourceType, ResourceTypeExt, VillageId,
};
use crate::village::{
    lemma_total_productivity_bounds, shelter_of, worker_days_dec, Allocation, House, Village, Worker,
};
use crate::text::{digits, usize_text};
use vstd::prelude::*;

verus! {

/// Values small enough that a day's arithmetic on them cannot overflow:
/// at most `10^22` in magnitude.
pub open spec fn tame(d: Dec) -> bool {
    d.wf() && abs_int(d.v()) <= tame_bound()
}

/// `10^22`, in units of [`Dec::v`].
pub open spec fn tame_bound() -> int {
    100000000000000000000000000000000000000000000000000int
}

/// A decimal's whole part as `to_u32` gives it, zero when it has none.
pub open spec fn whole_u32(d: Dec) -> u32 {
    if d.v() < 0 || d.floor_int() > u32::MAX {
        0
    } else {
        d.floor_int() as u32
    }
}

/// `0.5`, `0.1`, `2.0`.
pub open spec fn half() -> Dec {
    Dec { mantissa: 5, scale: 1 }
}

pub open spec fn tenth() -> Dec {
    Dec { mantissa: 1, scale: 1 }
}

pub open spec fn two() -> Dec {
    Dec { mantissa: 20, scale: 1 }
}

/// The integer `n` as a decimal of scale 0.
pub open spec fn whole(n: int) -> Dec {
    Dec { mantissa: n as i128, scale: 0 }
}

/// Worker-days spent on first-rate slots, at most one per slot.
pub open spec fn first_rate(slots: (u32, u32), worker_days: Dec) -> Dec {
    dmin(whole(slots.0 as int), worker_days)
}

/// Worker-days spent on second-rate slots: those left over from the
/// first-rate ones, at most one per slot.
pub open spec fn second_rate(slots: (u32, u32), worker_days: Dec) -> Dec {
    dmin(whole(slots.1 as int), decimal_difference(worker_days, first_rate(slots, worker_days)))
}

/// Output of `worker_days` spent on a resource with the given slots: full
/// output on first-rate slots, half on second-rate ones, none beyond them.
pub open spec fn output_of(slots: (u32, u32), units_per_slot: Dec, worker_days: Dec) -> Dec {
    decimal_product(
        decimal_sum(
            first_rate(slots, worker_days),
            decimal_product(second_rate(slots, worker_days), half()),
        ),
        units_per_slot,
    )
}

/// Resource production with diminishing returns: the first `slots.0`
/// worker-days produce `units_per_slot` each, the next `slots.1` produce half
/// as much, and any beyond produce nothing.
pub fn produced(slots: (u32, u32), units_per_slot: Dec, worker_days: Dec) -> (r: Dec)
    requires
        tame(worker_days),
        units_per_slot.wf(),
        abs_int(units_per_slot.v()) <= 10 * unit(),
    ensures
        r.wf(),
        r == output_of(slots, units_per_slot, worker_days),
        abs_int(r.v()) <= 110 * tame_bound(),
        units_per_slot.v() >= 0 ==> r.v() <= (slots.0 + slots.1 + 2) * units_per_slot.v() + unit(),
{
    proof {
        lemma_unit();
        lemma_v_sign(worker_days);
    }
    let full_slots = Dec::from_u32(slots.0).min(worker_days);
    proof {
        lemma_v_sign(full_slots);
    }
    let remaining = dec_sub(worker_days, full_slots);
    proof {
        lemma_v_sign(remaining);
    }
    let partial_slots = Dec::from_u32(slots.1).min(remaining);
    let five_tenths = Dec::new(5, 1);
    proof {
        lemma_v_sign(partial_slots);
        lemma_v_sign(five_tenths);
        assert(abs_int(partial_slots.v()) <= 300000000000000000000000000000000000000000000000000);
        assert(abs_int(partial_slots.v() * five_tenths.v()) <= limit() * unit())
            by (nonlinear_arith)
            requires
                abs_int(partial_slots.v()) <= 300000000000000000000000000000000000000000000000000,
                five_tenths.v() * 2 == unit(),
                unit() == 10000000000000000000000000000,
                limit() >= 10000000000000000000000000000 * 79228162514264337593543950334,
        ;
    }
    let partial_half = dec_mul(partial_slots, five_tenths);
    proof {
        lemma_v_sign(partial_half);
        let ph = partial_half.v();
        let pp = partial_slots.v();
        assert(abs_int(ph) <= 400000000000000000000000000000000000000000000000000)
            by (nonlinear_arith)
            requires
                2 * abs_int(ph * unit() - pp * five_tenths.v()) <= unit() * partial_half.ulp(),
                partial_half.ulp() <= unit(),
                five_tenths.v() * 2 == unit(),
                abs_int(pp) <= 300000000000000000000000000000000000000000000000000,
                unit() == 10000000000000000000000000000,
        ;
    }
    let sum = dec_add(full_slots, partial_half);
    proof {
        lemma_v_sign(sum);
        assert(abs_int(sum.v()) <= 1000000000000000000000000000000000000000000000000000);
        assert(abs_int(sum.v() * units_per_slot.v()) <= limit() * unit()) by (nonlinear_arith)
            requires
                abs_int(sum.v()) <= 1000000000000000000000000000000000000000000000000000,
                abs_int(units_per_slot.v()) <= 10 * unit(),
                unit() == 10000000000000000000000000000,
                limit() >= 10000000000000000000000000000 * 79228162514264337593543950334,
        ;
    }
    let r = dec_mul(sum, units_per_slot);
    proof {
        lemma_v_sign(r);
        let rv = r.v();
        let sv = sum.v();
        let uv = units_per_slot.v();
        lemma_abs_mul_le(sv, uv, 10 * tame_bound(), 10 * unit());
        assert(abs_int(rv) <= 110 * tame_bound()) by (nonlinear_arith)
            requires
                2 * abs_int(rv * unit() - sv * uv) <= unit() * r.ulp(),
                r.ulp() <= unit(),
                abs_int(sv * uv) <= (10 * tame_bound()) * (10 * unit()),
                unit() == 10000000000000000000000000000,
                tame_bound() == 100000000000000000000000000000000000000000000000000,
        ;
        if units_per_slot.v() >= 0 {
            let s0 = slots.0 as int;
            let s1 = slots.1 as int;
            let u = unit();
            assert(partial_slots.v() <= s1 * u);
            assert(full_slots.v() <= s0 * u);
            let ph = partial_half.v();
            let pp = partial_slots.v();
            let x = ph * u;
            let y = pp * five_tenths.v();
            assert(y * 2 == pp * u) by (nonlinear_arith)
                requires
                    y == pp * five_tenths.v(),
                    five_tenths.v() * 2 == u,
            ;
            assert(u * partial_half.ulp() <= u * u) by (nonlinear_arith)
                requires
                    partial_half.ulp() <= u,
                    u > 0,
            ;
            assert(2 * x <= pp * u + u * u);
            assert(2 * ph <= pp + u) by (nonlinear_arith)
                requires
                    2 * (ph * u) <= pp * u + u * u,
                    u > 0,
            ;
            assert(sv <= s0 * u + s1 * u + 2 * u);
            assert(rv * u <= sv * uv + u * u) by (nonlinear_arith)
                requires
                    2 * abs_int(rv * u - sv * uv) <= u * r.ulp(),
                    r.ulp() <= u,
                    u > 0,
            ;
            assert(sv * uv <= (s0 * u + s1 * u + 2 * u) * uv) by (nonlinear_arith)
                requires
                    sv <= s0 * u + s1 * u + 2 * u,
                    uv >= 0,
            ;
            assert((s0 * u + s1 * u + 2 * u) * uv + u * u == ((s0 + s1 + 2) * uv + u) * u)
                by (nonlinear_arith);
            assert(rv <= (s0 + s1 + 2) * uv + u) by (nonlinear_arith)
                requires
                    rv * u <= ((s0 + s1 + 2) * uv + u) * u,
                    u > 0,
            ;
        }
    }
    r
}

/// The records that production logs: one per resource whose output is
/// positive, wood first.
pub open spec fn production_records(
    tick: usize,
    id: String,
    wood_out: Dec,
    wood_workers: usize,
    food_out: Dec,
    food_workers: usize,
) -> Seq<Record> {
    (if wood_out.v() > 0 {
        seq![
            rec(
                tick,
                id,
                EventType::ResourceProduced {
                    resource: ResourceType::Wood,
                    amount: wood_out,
                    workers_assigned: wood_workers,
                },
            ),
        ]
    } else {
        Seq::empty()
    }) + (if food_out.v() > 0 {
        seq![
            rec(
                tick,
                id,
                EventType::ResourceProduced {
                    resource: ResourceType::Food,
                    amount: food_out,
                    workers_assigned: food_workers,
                },
            ),
        ]
    } else {
        Seq::empty()
    })
}

/// Wood from the worker-days allotted to it at 0.1 per first-rate slot, food
/// at 2.0; each positive output is added to the stock and logged.
pub fn process_production(
    village: &mut Village,
    allocation: &Allocation,
    logger: &mut EventLogger,
    tick: usize,
)
    requires
        tame(old(village).wood),
        tame(old(village).food),
        tame(allocation.wood),
        tame(allocation.food),
    ensures
        ({
            let wood_out = output_of(old(village).wood_slots, tenth(), allocation.wood);
            let food_out = output_of(old(village).food_slots, two(), allocation.food);
            &&& *final(village) == (Village {
                wood: if wood_out.v() > 0 {
                    decimal_sum(old(village).wood, wood_out)
                } else {
                    old(village).wood
                },
                food: if food_out.v() > 0 {
                    decimal_sum(old(village).food, food_out)
                } else {
                    old(village).food
                },
                ..*old(village)
            })
            &&& appended(
                old(logger)@,
                final(logger)@,
                production_records(
                    tick,
                    old(village).id_str,
                    wood_out,
                    whole_u32(allocation.wood) as usize,
                    food_out,
                    whole_u32(allocation.food) as usize,
                ),
            )
        }),
        final(village).wood.wf(),
        final(village).food.wf(),
        abs_int(final(village).wood.v()) <= abs_int(old(village).wood.v()) + (
        old(village).wood_slots.0 + old(village).wood_slots.1 + 2) * 2 * unit() + 2 * unit(),
        abs_int(final(village).food.v()) <= abs_int(old(village).food.v()) + (
        old(village).food_slots.0 + old(village).food_slots.1 + 2) * 2 * unit() + 2 * unit(),
        old(village).wood.v() >= 0 ==> final(village).wood.v() >= 0,
        old(village).food.v() >= 0 ==> final(village).food.v() >= 0,
{
    proof {
        lemma_unit();
    }
    let wood_workers = whole_part(&allocation.wood) as usize;
    let food_workers = whole_part(&allocation.food) as usize;
    let wood_produced = produced(village.wood_slots, Dec::new(1, 1), allocation.wood);
    let food_produced = produced(village.food_slots, Dec::new(20, 1), allocation.food);
    let ghost log0 = logger@;
    let zero = Dec::zero();
    proof {
        lemma_unit();
        lemma_appended_none(log0);
    }
    if wood_produced.gt(&zero) {
        logger.log(
            tick,
            village.id_str.clone(),
            EventType::ResourceProduced {
                resource: ResourceType::Wood,
                amount: wood_produced,
                workers_assigned: wood_workers,
            },
        );
        proof {
            lemma_production_step(village.wood, wood_produced, village.wood_slots, tenth());
        }
        let ghost before = village.wood;
        village.wood = dec_add(village.wood, wood_produced);
        proof {
            lemma_v_sign(village.wood);
            if before.v() >= 0 {
                lemma_rounded_nonneg(village.wood, before.v() + wood_produced.v());
            }
        }
    }
    let ghost log1 = logger@;
    if food_produced.gt(&zero) {
        logger.log(
            tick,
            village.id_str.clone(),
            EventType::ResourceProduced {
                resource: ResourceType::Food,
                amount: food_produced,
                workers_assigned: food_workers,
            },
        );
        proof {
            lemma_production_step(village.food, food_produced, village.food_slots, two());
        }
        let ghost before = village.food;
        village.food = dec_add(village.food, food_produced);
        proof {
            lemma_v_sign(village.food);
            if before.v() >= 0 {
                lemma_rounded_nonneg(village.food, before.v() + food_produced.v());
            }
        }
    }
    proof {
        let r1 = if wood_produced.v() > 0 {
            seq![
                rec(
                    tick,
                    village.id_str,
                    EventType::ResourceProduced {
                        resource: ResourceType::Wood,
                        amount: wood_produced,
                        workers_assigned: wood_workers,
                    },
                ),
            ]
        } else {
            Seq::<Record>::empty()
        };
        let r2 = if food_produced.v() > 0 {
            seq![
                rec(
                    tick,
                    village.id_str,
                    EventType::ResourceProduced {
                        resource: ResourceType::Food,
                        amount: food_produced,
                        workers_assigned: food_workers,
                    },
                ),
            ]
        } else {
            Seq::<Record>::empty()
        };
        if wood_produced.v() <= 0 {
            lemma_appended_none(log0);
        }
        if food_produced.v() <= 0 {
            lemma_appended_none(log1);
        }
        lemma_appended_trans(log0, log1, logger@, r1, r2);
    }
}

proof fn lemma_production_step(stock: Dec, out: Dec, slots: (u32, u32), units: Dec)
    requires
        tame(stock),
        out.wf(),
        out.v() > 0,
        units.v() >= 0,
        units.v() <= 2 * unit(),
        out.v() <= (slots.0 + slots.1 + 2) * units.v() + unit(),
    ensures
        -limit() <= stock.v() + out.v() <= limit(),
        abs_int(stock.v() + out.v()) + unit() <= abs_int(stock.v()) + (slots.0 + slots.1 + 2) * 2
            * unit() + 2 * unit(),
{
    lemma_unit();
    assert((slots.0 + slots.1 + 2) * units.v() <= (slots.0 + slots.1 + 2) * 2 * unit())
        by (nonlinear_arith)
        requires
            slots.0 + slots.1 + 2 >= 0,
            units.v() <= 2 * unit(),
    ;
    assert((slots.0 + slots.1 + 2) * units.v() <= 8589934592 * 2 * unit()) by (nonlinear_arith)
        requires
            slots.0 + slots.1 + 2 <= 8589934592,
            0 <= units.v() <= 2 * unit(),
    ;
}

proof fn lemma_div_shift(a: int, b: int, k: int, u: int)
    requires
        u > 0,
        k >= 0,
        a <= b + k * u,
    ensures
        a / u <= b / u + k,
{
    assert((b + k * u) / u == b / u + k) by (nonlinear_arith)
        requires
            u > 0,
    ;
    assert(a / u <= (b + k * u) / u) by (nonlinear_arith)
        requires
            a <= b + k * u,
            u > 0,
    ;
}

/// `to_u32` of a decimal, zero where it gives none.
pub fn whole_part(d: &Dec) -> (r: u32)
    requires
        d.wf(),
    ensures
        r == whole_u32(*d),
{
    match dec_to_u32(d) {
        Some(n) => n,
        None => 0,
    }
}

/// The record that allocating workers logs: whole worker-days on food, wood
/// and construction, none on repair, and the workers left idle.
pub open spec fn allocation_record(tick: usize, v: Village, a: Allocation) -> Record {
    let food = whole_u32(a.food) as int;
    let wood = whole_u32(a.wood) as int;
    let construction = whole_u32(a.house_construction) as int;
    let busy = food + wood + construction;
    rec(
        tick,
        v.id_str,
        EventType::WorkerAllocation {
            food_workers: food as usize,
            wood_workers: wood as usize,
            construction_workers: construction as usize,
            repair_workers: 0,
            idle_workers: (if v.workers@.len() > busy {
                v.workers@.len() - busy
            } else {
                0
            }) as usize,
        },
    )
}

/// Logs how the day's worker-days are split between tasks.
pub fn log_worker_allocation(
    village: &Village,
    allocation: &Allocation,
    logger: &mut EventLogger,
    tick: usize,
)
    requires
        allocation.wood.wf(),
        allocation.food.wf(),
        allocation.house_construction.wf(),
    ensures
        appended(old(logger)@, final(logger)@, seq![allocation_record(tick, *village, *allocation)]),
{
    let food_workers = whole_part(&allocation.food);
    let wood_workers = whole_part(&allocation.wood);
    let construction_workers = whole_part(&allocation.house_construction);
    let busy: u64 = food_workers as u64 + wood_workers as u64 + construction_workers as u64;
    let population: u64 = village.workers.len() as u64;
    let idle: u64 = if population > busy {
        population - busy
    } else {
        0
    };
    logger.log(
        tick,
        village.id_str.clone(),
        EventType::WorkerAllocation {
            food_workers: food_workers as usize,
            wood_workers: wood_workers as usize,
            construction_workers: construction_workers as usize,
            repair_workers: 0,
            idle_workers: idle as usize,
        },
    );
}

/// `x` with `d` taken away `n` times.
pub open spec fn repeat_less(x: Dec, d: Dec, n: nat) -> Dec
    decreases n,
{
    if n == 0 {
        x
    } else {
        decimal_difference(repeat_less(x, d, (n - 1) as nat), d)
    }
}

/// `10.0` and `60.0`: the wood and the worker-days that a house takes.
pub open spec fn house_wood() -> Dec {
    Dec { mantissa: 100, scale: 1 }
}

pub open spec fn house_work() -> Dec {
    Dec { mantissa: 600, scale: 1 }
}

/// Enough progress and enough wood for another house.
pub open spec fn can_build(progress: Dec, wood: Dec) -> bool {
    progress.v() >= 60 * unit() && wood.v() >= 10 * unit()
}

/// Starting from progress `p` and wood `w`, exactly `n` houses get built:
/// each of the first `n` steps could build one, the next cannot.
pub open spec fn builds(p: Dec, w: Dec, n: nat) -> bool {
    &&& forall|k: nat|
        k < n ==> can_build(
            #[trigger] repeat_less(p, house_work(), k),
            repeat_less(w, house_wood(), k),
        )
    &&& !can_build(repeat_less(p, house_work(), n), repeat_less(w, house_wood(), n))
}

/// `n` new houses, numbered from `first_id`, at maintenance level 0.0.
pub open spec fn new_houses(first_id: usize, n: nat) -> Seq<House> {
    Seq::new(n, |k: int| House { id: (first_id + k) as usize, maintenance_level: Dec { mantissa: 0, scale: 1 } })
}

/// What building `n` houses logs: for each, the wood it consumed and its
/// completion.
pub open spec fn construction_records(
    tick: usize,
    id: String,
    first_id: usize,
    houses_before: nat,
    n: nat,
) -> Seq<Record>
    decreases n,
{
    if n == 0 {
        Seq::empty()
    } else {
        construction_records(tick, id, first_id, houses_before, (n - 1) as nat) + seq![
            rec(
                tick,
                id,
                EventType::ResourceConsumed {
                    resource: ResourceType::Wood,
                    amount: house_wood(),
                    purpose: ConsumptionPurpose::HouseConstruction,
                },
            ),
            rec(
                tick,
                id,
                EventType::HouseCompleted {
                    house_id: (first_id + n - 1) as usize,
                    total_houses: (houses_before + n) as usize,
                },
            ),
        ]
    }
}

/// With work `work` added to the progress, `n` houses get built and the
/// village and the log end as `after` and `log_after`.
pub open spec fn built(
    before: Village,
    work: Dec,
    tick: usize,
    log_before: Seq<Event>,
    after: Village,
    log_after: Seq<Event>,
    n: nat,
) -> bool {
    let p = decimal_sum(before.construction_progress, work);
    &&& builds(p, before.wood, n)
    &&& after.construction_progress == repeat_less(p, house_work(), n)
    &&& after.wood == repeat_less(before.wood, house_wood(), n)
    &&& after.houses@ == before.houses@ + new_houses(before.next_house_id, n)
    &&& after.next_house_id == before.next_house_id + n
    &&& appended(
        log_before,
        log_after,
        construction_records(tick, before.id_str, before.next_house_id, before.houses@.len(), n),
    )
}

/// The day's construction work is added to the progress; then, while the
/// progress reaches 60 worker-days and 10 wood is in stock, a house is built
/// from them. With no work allotted nothing changes.
pub fn process_construction(
    village: &mut Village,
    allocation: &Allocation,
    logger: &mut EventLogger,
    tick: usize,
)
    requires
        tame(old(village).construction_progress),
        tame(old(village).wood),
        tame(allocation.house_construction),
        old(village).next_house_id + abs_int(old(village).wood.v()) / unit() + 1 < usize::MAX,
        old(village).houses@.len() + abs_int(old(village).wood.v()) / unit() + 1 < usize::MAX,
    ensures
        allocation.house_construction.v() <= 0 ==> *final(village) == *old(village) && final(logger)@
            == old(logger)@,
        allocation.house_construction.v() > 0 ==> exists|n: nat|
            #[trigger] built(
                *old(village),
                allocation.house_construction,
                tick,
                old(logger)@,
                *final(village),
                final(logger)@,
                n,
            ),
        final(village).id == old(village).id,
        final(village).id_str == old(village).id_str,
        final(village).food == old(village).food,
        final(village).money == old(village).money,
        final(village).wood_slots == old(village).wood_slots,
        final(village).food_slots == old(village).food_slots,
        final(village).workers == old(village).workers,
        final(village).next_worker_id == old(village).next_worker_id,
        final(village).rng == old(village).rng,
        final(village).wood.wf(),
        abs_int(final(village).wood.v()) <= abs_int(old(village).wood.v()) + unit(),
        old(village).wood.v() >= 0 ==> final(village).wood.v() >= 0,
{
    proof {
        lemma_unit();
    }
    let zero = Dec::new(0, 1);
    if allocation.house_construction.le(&zero) {
        return;
    }
    let ghost v0 = *village;
    let ghost log0 = logger@;
    village.construction_progress = dec_add(village.construction_progress, allocation.house_construction);
    let ghost p = village.construction_progress;
    let sixty = Dec::new(600, 1);
    let ten = Dec::new(100, 1);
    let ghost mut n: nat = 0;
    proof {
        lemma_v_sign(p);
        lemma_appended_none(log0);
    }
    loop
        invariant_except_break
            v0.houses@.len() + abs_int(v0.wood.v()) / unit() + 1 < usize::MAX,
            v0.next_house_id + abs_int(v0.wood.v()) / unit() + 1 < usize::MAX,
            tame(v0.wood),
            abs_int(p.v()) <= 3 * tame_bound(),
            sixty == house_work(),
            ten == house_wood(),
            forall|k: nat| k < n ==> can_build(
                #[trigger] repeat_less(p, house_work(), k),
                repeat_less(v0.wood, house_wood(), k),
            ),
            village.construction_progress == repeat_less(p, house_work(), n),
            village.wood == repeat_less(v0.wood, house_wood(), n),
            village.construction_progress.wf(),
            village.wood.wf(),
            abs_int(village.construction_progress.v()) <= 3 * tame_bound(),
            n > 0 ==> -unit() <= village.wood.v(),
            v0.wood.v() >= 0 ==> village.wood.v() >= 0,
            village.wood.v() <= v0.wood.v(),
            village.wood.v() + 9 * unit() * n <= v0.wood.v(),
            village.houses@ == v0.houses@ + new_houses(v0.next_house_id, n),
            village.next_house_id == v0.next_house_id + n,
            appended(
                log0,
                logger@,
                construction_records(tick, v0.id_str, v0.next_house_id, v0.houses@.len(), n),
            ),
            village.id == v0.id,
            village.id_str == v0.id_str,
            village.food == v0.food,
            village.money == v0.money,
            village.wood_slots == v0.wood_slots,
            village.food_slots == v0.food_slots,
            village.workers == v0.workers,
            village.next_worker_id == v0.next_worker_id,
            village.rng == v0.rng,
        ensures
            builds(p, v0.wood, n),
            village.wood.wf(),
            village.wood.v() <= v0.wood.v(),
            n > 0 ==> -unit() <= village.wood.v(),
            v0.wood.v() >= 0 ==> village.wood.v() >= 0,
            village.construction_progress == repeat_less(p, house_work(), n),
            village.wood == repeat_less(v0.wood, house_wood(), n),
            village.houses@ == v0.houses@ + new_houses(v0.next_house_id, n),
            village.next_house_id == v0.next_house_id + n,
            appended(
                log0,
                logger@,
                construction_records(tick, v0.id_str, v0.next_house_id, v0.houses@.len(), n),
            ),
            village.id == v0.id,
            village.id_str == v0.id_str,
            village.food == v0.food,
            village.money == v0.money,
            village.wood_slots == v0.wood_slots,
            village.food_slots == v0.food_slots,
            village.workers == v0.workers,
            village.next_worker_id == v0.next_worker_id,
            village.rng == v0.rng,
        decreases village.wood.v() + unit(),
    {
        proof {
            lemma_unit();
        }
        if !village.construction_progress.ge(&sixty) {
            break;
        }
        if !village.wood.ge(&ten) {
            break;
        }
        let ghost w_before = village.wood;
        let ghost log_before = logger@;
        proof {
            assert(can_build(repeat_less(p, house_work(), n), repeat_less(v0.wood, house_wood(), n)));
            assert(n * (9 * unit()) <= v0.wood.v() + unit()) by (nonlinear_arith)
                requires
                    village.wood.v() + 9 * unit() * n <= v0.wood.v(),
                    village.wood.v() >= 10 * unit(),
                    unit() > 0,
            ;
            assert(n <= abs_int(v0.wood.v()) / unit()) by (nonlinear_arith)
                requires
                    n * (9 * unit()) <= v0.wood.v() + unit(),
                    v0.wood.v() >= 10 * unit(),
                    unit() > 0,
            ;
        }
        village.wood = dec_sub(village.wood, ten);
        logger.log(
            tick,
            village.id_str.clone(),
            EventType::ResourceConsumed {
                resource: ResourceType::Wood,
                amount: ten,
                purpose: ConsumptionPurpose::HouseConstruction,
            },
        );
        let ghost log_mid = logger@;
        let new_house = House { id: village.next_house_id, maintenance_level: Dec::new(0, 1) };
        village.next_house_id = village.next_house_id + 1;
        logger.log(
            tick,
            village.id_str.clone(),
            EventType::HouseCompleted { house_id: new_house.id, total_houses: village.houses.len() + 1 },
        );
        village.houses.push(new_house);
        village.construction_progress = dec_sub(village.construction_progress, sixty);
        proof {
            lemma_v_sign(village.wood);
            lemma_v_sign(village.construction_progress);
            lemma_rounded_nonneg(village.wood, w_before.v() - 10 * unit());
            let recs = construction_records(tick, v0.id_str, v0.next_house_id, v0.houses@.len(), n);
            let step = construction_records(tick, v0.id_str, v0.next_house_id, v0.houses@.len(), n + 1);
            assert(step == recs + seq![
                rec(
                    tick,
                    v0.id_str,
                    EventType::ResourceConsumed {
                        resource: ResourceType::Wood,
                        amount: house_wood(),
                        purpose: ConsumptionPurpose::HouseConstruction,
                    },
                ),
                rec(
                    tick,
                    v0.id_str,
                    EventType::HouseCompleted {
                        house_id: (v0.next_house_id + n) as usize,
                        total_houses: (v0.houses@.len() + n + 1) as usize,
                    },
                ),
            ]);
            let c = rec(
                tick,
                v0.id_str,
                EventType::ResourceConsumed {
                    resource: ResourceType::Wood,
                    amount: house_wood(),
                    purpose: ConsumptionPurpose::HouseConstruction,
                },
            );
            let h = rec(
                tick,
                v0.id_str,
                EventType::HouseCompleted {
                    house_id: (v0.next_house_id + n) as usize,
                    total_houses: (v0.houses@.len() + n + 1) as usize,
                },
            );
            lemma_appended_trans(log_before, log_mid, logger@, seq![c], seq![h]);
            assert(seq![c] + seq![h] =~= step.subrange(recs.len() as int, step.len() as int));
            lemma_appended_trans(
                log0,
                log_before,
                logger@,
                recs,
                step.subrange(recs.len() as int, step.len() as int),
            );
            assert(village.wood.v() + 9 * unit() * (n + 1) <= v0.wood.v()) by (nonlinear_arith)
                requires
                    2 * abs_int(village.wood.v() - (w_before.v() - 10 * unit())) <= village.wood.ulp(),
                    village.wood.ulp() <= unit(),
                    w_before.v() + 9 * unit() * n <= v0.wood.v(),
            ;
            assert(recs + step.subrange(recs.len() as int, step.len() as int) =~= step);
            assert(village.houses@ =~= v0.houses@ + new_houses(v0.next_house_id, n + 1));
            n = n + 1;
        }
    }
    proof {
        assert(built(v0, allocation.house_construction, tick, log0, *village, logger@, n));
    }
}

/// `1.0`.
pub open spec fn one_point_zero() -> Dec {
    Dec { mantissa: 10, scale: 1 }
}

/// How many workers the houses shelter, as a decimal of scale 0.
pub open spec fn shelter_dec(houses: Seq<House>) -> Dec {
    Dec { mantissa: (total_shelter(houses) / unit()) as i128, scale: 0 }
}

pub open spec fn total_shelter(houses: Seq<House>) -> int
    decreases houses.len(),
{
    if houses.len() == 0 {
        0
    } else {
        total_shelter(houses.drop_last()) + shelter_of(houses.last())
    }
}

proof fn lemma_total_shelter(houses: Seq<House>)
    ensures
        0 <= total_shelter(houses) <= 5 * unit() * houses.len(),
        total_shelter(houses) % unit() == 0,
    decreases houses.len(),
{
    lemma_unit();
    if houses.len() > 0 {
        lemma_total_shelter(houses.drop_last());
        let h = houses.last();
        let t = total_shelter(houses.drop_last());
        assert(5 * unit() * (houses.len() - 1) + 5 * unit() == 5 * unit() * houses.len())
            by (nonlinear_arith);
        assert(shelter_of(h) % unit() == 0) by (nonlinear_arith)
            requires
                shelter_of(h) == 5 * unit() - (if abs_int(h.maintenance_level.v()) / unit() < 5 {
                    abs_int(h.maintenance_level.v()) / unit()
                } else {
                    5
                }) * unit() || shelter_of(h) == 5 * unit(),
                unit() > 0,
        ;
        assert((t + shelter_of(h)) % unit() == 0) by (nonlinear_arith)
            requires
                t % unit() == 0,
                shelter_of(h) % unit() == 0,
                unit() > 0,
        ;
    }
}

/// The houses' shelter, summed as decimals from zero.
pub fn shelter_capacity(houses: &Vec<House>) -> (r: Dec)
    requires
        forall|k: int| 0 <= k < houses@.len() ==> (#[trigger] houses@[k]).maintenance_level.wf(),
    ensures
        r == shelter_dec(houses@),
        r.wf(),
        r.v() == total_shelter(houses@),
{
    proof {
        lemma_unit();
    }
    let mut total = Dec::zero();
    let mut i: usize = 0;
    while i < houses.len()
        invariant
            i <= houses@.len(),
            forall|k: int| 0 <= k < houses@.len() ==> (#[trigger] houses@[k]).maintenance_level.wf(),
            total.wf(),
            total.scale == 0,
            total.v() == total_shelter(houses@.take(i as int)),
            pow10(28) == unit(),
        decreases houses@.len() - i,
    {
        let e = houses[i].shelter_effect();
        proof {
            let hs = houses@.take(i as int + 1);
            assert(hs.drop_last() == houses@.take(i as int));
            assert(hs.last() == houses@[i as int]);
            lemma_total_shelter(houses@.take(i as int));
            assert((i + 1) * 5 * unit() <= (MAX_MANTISSA - 1) * pow10(28)) by (nonlinear_arith)
                requires
                    i + 1 <= 18446744073709551616,
                    pow10(28) == unit(),
                    unit() == 10000000000000000000000000000,
            ;
            lemma_exact_sum(total, e, 0);
        }
        total = dec_add(total, e);
        i = i + 1;
    }
    proof {
        assert(houses@.take(houses@.len() as int) == houses@);
        lemma_total_shelter(houses@);
        lemma_v_sign(total);
        assert(total.mantissa == total_shelter(houses@) / unit()) by (nonlinear_arith)
            requires
                total.v() == total.mantissa * pow10(28),
                pow10(28) == unit(),
                total.v() == total_shelter(houses@),
                unit() > 0,
        ;
    }
    total
}

/// A worker after a day with or without food and shelter: each lack counts
/// one more day, each need met resets its count; days with both count up,
/// and after 100 of them the worker may have a child.
pub open spec fn tended(w: Worker, has_food: bool, has_shelter: bool) -> Worker {
    let both = if has_food && has_shelter {
        (w.days_with_both + 1) as u32
    } else {
        0u32
    };
    Worker {
        id: w.id,
        days_without_food: if has_food {
            0u32
        } else {
            (w.days_without_food + 1) as u32
        },
        days_without_shelter: if has_shelter {
            0u32
        } else {
            (w.days_without_shelter + 1) as u32
        },
        days_with_both: both,
        spawn_eligible: w.spawn_eligible || both >= 100,
    }
}

/// Food, shelter left, food eaten, and the workers tended, after the first
/// `n` workers have each eaten 1.0 food and taken 1.0 shelter where there was
/// at least that much left.
pub open spec fn tend_state(food: Dec, shelter: Dec, ws: Seq<Worker>, n: nat) -> (
    Dec,
    Dec,
    Dec,
    Seq<Worker>,
)
    decreases n,
{
    if n == 0 {
        (food, shelter, Dec { mantissa: 0, scale: 0 }, Seq::empty())
    } else {
        let prev = tend_state(food, shelter, ws, (n - 1) as nat);
        let has_food = prev.0.v() >= unit();
        let has_shelter = prev.1.v() >= unit();
        (
            if has_food {
                decimal_difference(prev.0, one_point_zero())
            } else {
                prev.0
            },
            if has_shelter {
                decimal_difference(prev.1, one_point_zero())
            } else {
                prev.1
            },
            if has_food {
                decimal_sum(prev.2, one_point_zero())
            } else {
                prev.2
            },
            prev.3.push(tended(ws[n - 1], has_food, has_shelter)),
        )
    }
}

/// The workers among the first `n` who die: 10 days without food is
/// starvation, else 30 days without shelter is exposure. Each is listed by
/// index and id, in order.
pub open spec fn deaths_among(ws: Seq<Worker>, n: nat) -> Seq<(usize, usize, DeathCause)>
    decreases n,
{
    if n == 0 {
        Seq::empty()
    } else {
        let prev = deaths_among(ws, (n - 1) as nat);
        let w = ws[n - 1];
        if w.days_without_food >= 10 {
            prev.push(((n - 1) as usize, w.id, DeathCause::Starvation))
        } else if w.days_without_shelter >= 30 {
            prev.push(((n - 1) as usize, w.id, DeathCause::NoShelter))
        } else {
            prev
        }
    }
}

/// No day counter of any worker is at its largest value.
pub open spec fn counters_ok(ws: Seq<Worker>) -> bool {
    forall|k: int|
        0 <= k < ws.len() ==> {
            let w = #[trigger] ws[k];
            &&& w.days_without_food < u32::MAX
            &&& w.days_without_shelter < u32::MAX
            &&& w.days_with_both < u32::MAX
        }
}

pub open spec fn houses_ok(hs: Seq<House>) -> bool {
    forall|k: int| 0 <= k < hs.len() ==> tame((#[trigger] hs[k]).maintenance_level)
}

/// Feeds and shelters each worker in turn, updates its day counts, lists the
/// workers who die, and logs the food eaten.
fn tend_workers(village: &mut Village, logger: &mut EventLogger, tick: usize) -> (r: Vec<
    (usize, usize, DeathCause),
>)
    requires
        tame(old(village).food),
        counters_ok(old(village).workers@),
        houses_ok(old(village).houses@),
    ensures
        ({
            let t = tend_state(
                old(village).food,
                shelter_dec(old(village).houses@),
                old(village).workers@,
                old(village).workers@.len(),
            );
            &&& *final(village) == (Village { food: t.0, workers: final(village).workers, ..*old(village) })
            &&& final(village).workers@ == t.3
            &&& r@ == deaths_among(t.3, t.3.len())
            &&& appended(
                old(logger)@,
                final(logger)@,
                if t.2.v() > 0 {
                    seq![
                        rec(
                            tick,
                            old(village).id_str,
                            EventType::ResourceConsumed {
                                resource: ResourceType::Food,
                                amount: t.2,
                                purpose: ConsumptionPurpose::WorkerFeeding,
                            },
                        ),
                    ]
                } else {
                    Seq::empty()
                },
            )
        }),
        old(village).food.v() >= 0 ==> final(village).food.v() >= 0,
{
    proof {
        lemma_unit();
        lemma_total_shelter(village.houses@);
    }
    let mut shelter = shelter_capacity(&village.houses);
    let _houses = village.houses.len();
    let ghost v0 = *village;
    let ghost ws0 = village.workers@;
    let ghost s0 = shelter;
    let mut food_consumed = Dec::zero();
    let mut removals: Vec<(usize, usize, DeathCause)> = Vec::new();
    let one = Dec::new(10, 1);
    let mut i: usize = 0;
    while i < village.workers.len()
        invariant
            i <= village.workers@.len(),
            village.workers@.len() == ws0.len(),
            one == one_point_zero(),
            pow10(27) * 10 == unit(),
            unit() == 10000000000000000000000000000,
            counters_ok(ws0),
            tame(v0.food),
            s0.wf(),
            0 <= s0.v() <= 5 * unit() * v0.houses@.len(),
            v0.houses@.len() <= usize::MAX,
            ({
                let t = tend_state(v0.food, s0, ws0, i as nat);
                &&& village.food == t.0
                &&& shelter == t.1
                &&& food_consumed == t.2
                &&& village.workers@ == t.3 + ws0.subrange(i as int, ws0.len() as int)
                &&& removals@ == deaths_among(t.3, i as nat)
            }),
            village.food.wf(),
            shelter.wf(),
            food_consumed.wf(),
            abs_int(village.food.v()) <= tame_bound() + 2 * unit() * i,
            v0.food.v() >= 0 ==> village.food.v() >= 0,
            abs_int(shelter.v()) <= 5 * unit() * v0.houses@.len() + 2 * unit() * i,
            abs_int(food_consumed.v()) <= 2 * unit() * i,
            *village == (Village { food: village.food, workers: village.workers, ..v0 }),
        decreases ws0.len() - i,
    {
        let ghost t = tend_state(v0.food, s0, ws0, i as nat);
        let mut worker = village.workers[i];
        proof {
            assert(worker == ws0[i as int]);
            assert(t.3.len() == i) by {
                lemma_tend_len(v0.food, s0, ws0, i as nat);
            }
            assert(abs_int(village.food.v() - one.v()) <= limit());
            assert(abs_int(food_consumed.v() + one.v()) <= limit());
            assert(5 * unit() * v0.houses@.len() + 2 * unit() * i + unit() <= limit())
                by (nonlinear_arith)
                requires
                    v0.houses@.len() <= 18446744073709551615,
                    i <= 18446744073709551615,
                    unit() == 10000000000000000000000000000,
                    limit() == (MAX_MANTISSA - 1) * unit(),
            ;
            assert(abs_int(shelter.v() - one.v()) <= limit());
        }
        let has_food = if village.food.ge(&one) {
            let ghost before = village.food;
            village.food = dec_sub(village.food, one);
            proof {
                lemma_rounded_nonneg(village.food, before.v() - one.v());
            }
            food_consumed = dec_add(food_consumed, one);
            worker.days_without_food = 0;
            true
        } else {
            worker.days_without_food = worker.days_without_food + 1;
            false
        };
        let has_shelter = shelter.ge(&one);
        if has_shelter {
            shelter = dec_sub(shelter, one);
            worker.days_without_shelter = 0;
        } else {
            worker.days_without_shelter = worker.days_without_shelter + 1;
        }
        worker.days_with_both = if has_food && has_shelter {
            worker.days_with_both + 1
        } else {
            0
        };
        if worker.days_with_both >= 100 {
            worker.spawn_eligible = true;
        }
        if worker.days_without_food >= 10 {
            removals.push((i, worker.id, DeathCause::Starvation));
        } else if worker.days_without_shelter >= 30 {
            removals.push((i, worker.id, DeathCause::NoShelter));
        }
        let ghost before_set = village.workers@;
        village.workers.set(i, worker);
        proof {
            lemma_v_sign(village.food);
            lemma_v_sign(shelter);
            lemma_v_sign(food_consumed);
            let t1 = tend_state(v0.food, s0, ws0, (i + 1) as nat);
            assert(worker == tended(ws0[i as int], has_food, has_shelter));
            assert(t1.3 == t.3.push(worker));
            assert(village.workers@ =~= t1.3 + ws0.subrange(i + 1, ws0.len() as int));
            assert(t1.3[i as int] == worker);
            assert(deaths_among(t1.3, (i + 1) as nat) == removals@) by {
                lemma_deaths_prefix(t1.3, t.3, i as nat);
            }
        }
        i = i + 1;
    }
    proof {
        assert(ws0.subrange(ws0.len() as int, ws0.len() as int) =~= Seq::<Worker>::empty());
        assert(village.workers@ =~= tend_state(v0.food, s0, ws0, ws0.len()).3);
        lemma_tend_len(v0.food, s0, ws0, ws0.len());
    }
    let ghost log0 = logger@;
    if food_consumed.gt(&Dec::zero()) {
        logger.log(
            tick,
            village.id_str.clone(),
            EventType::ResourceConsumed {
                resource: ResourceType::Food,
                amount: food_consumed,
                purpose: ConsumptionPurpose::WorkerFeeding,
            },
        );
    } else {
        proof {
            lemma_appended_none(log0);
        }
    }
    removals
}

proof fn lemma_tend_len(food: Dec, shelter: Dec, ws: Seq<Worker>, n: nat)
    ensures
        tend_state(food, shelter, ws, n).3.len() == n,
    decreases n,
{
    if n > 0 {
        lemma_tend_len(food, shelter, ws, (n - 1) as nat);
    }
}

/// The deaths among the first `n` workers depend only on those workers.
proof fn lemma_deaths_prefix(a: Seq<Worker>, b: Seq<Worker>, n: nat)
    requires
        n <= b.len(),
        n < a.len(),
        forall|k: int| 0 <= k < b.len() ==> a[k] == b[k],
    ensures
        deaths_among(a, n) == deaths_among(b, n),
    decreases n,
{
    if n > 0 {
        lemma_deaths_prefix(a, b, (n - 1) as nat);
    }
}

/// How many of the workers may have a child.
pub open spec fn count_eligible(ws: Seq<Worker>) -> nat
    decreases ws.len(),
{
    if ws.len() == 0 {
        0
    } else {
        count_eligible(ws.drop_last()) + (if ws.last().spawn_eligible {
            1nat
        } else {
            0nat
        })
    }
}

/// The index of the first worker who may have a child.
pub open spec fn is_first_eligible(ws: Seq<Worker>, j: int) -> bool {
    &&& 0 <= j < ws.len()
    &&& ws[j].spawn_eligible
    &&& forall|k: int| 0 <= k < j ==> !(#[trigger] ws[k]).spawn_eligible
}

/// A worker who has had a child: its count of days with both needs met
/// starts over.
pub open spec fn after_birth(w: Worker) -> Worker {
    Worker { days_with_both: 0, spawn_eligible: false, ..w }
}

/// The first `k` eligible workers, in order, have each had a child.
pub open spec fn births_from(ws: Seq<Worker>, k: nat) -> Seq<Worker>
    decreases k,
{
    if k == 0 {
        ws
    } else {
        let prev = births_from(ws, (k - 1) as nat);
        if exists|j: int| is_first_eligible(prev, j) {
            let j = choose|j: int| is_first_eligible(prev, j);
            prev.update(j, after_birth(prev[j]))
        } else {
            prev
        }
    }
}

proof fn lemma_count_eligible_bound(ws: Seq<Worker>)
    ensures
        count_eligible(ws) <= ws.len(),
    decreases ws.len(),
{
    if ws.len() > 0 {
        lemma_count_eligible_bound(ws.drop_last());
    }
}

/// Some worker is eligible exactly when the count is positive.
proof fn lemma_count_positive(ws: Seq<Worker>)
    ensures
        count_eligible(ws) > 0 <==> exists|j: int| 0 <= j < ws.len() && (#[trigger] ws[j]).spawn_eligible,
    decreases ws.len(),
{
    if ws.len() > 0 {
        lemma_count_positive(ws.drop_last());
        if ws.last().spawn_eligible {
            assert(ws[ws.len() - 1].spawn_eligible);
        }
        if exists|j: int| 0 <= j < ws.len() && (#[trigger] ws[j]).spawn_eligible {
            let j = choose|j: int| 0 <= j < ws.len() && (#[trigger] ws[j]).spawn_eligible;
            if j < ws.len() - 1 {
                assert(ws.drop_last()[j] == ws[j]);
            }
        }
        if exists|j: int| 0 <= j < ws.len() - 1 && (#[trigger] ws.drop_last()[j]).spawn_eligible {
            let j = choose|j: int| 0 <= j < ws.len() - 1 && (#[trigger] ws.drop_last()[j]).spawn_eligible;
            assert(ws[j] == ws.drop_last()[j]);
        }
    }
}

/// Where some worker is eligible, a first one is.
proof fn lemma_first_eligible_exists(ws: Seq<Worker>, j: int)
    requires
        0 <= j < ws.len(),
        ws[j].spawn_eligible,
    ensures
        exists|f: int| is_first_eligible(ws, f),
    decreases j,
{
    if exists|k: int| 0 <= k < j && (#[trigger] ws[k]).spawn_eligible {
        let k = choose|k: int| 0 <= k < j && (#[trigger] ws[k]).spawn_eligible;
        lemma_first_eligible_exists(ws, k);
    } else {
        assert(is_first_eligible(ws, j));
    }
}

/// Resetting one eligible worker leaves one fewer eligible.
proof fn lemma_count_after_birth(ws: Seq<Worker>, j: int)
    requires
        0 <= j < ws.len(),
        ws[j].spawn_eligible,
    ensures
        count_eligible(ws.update(j, after_birth(ws[j]))) + 1 == count_eligible(ws),
    decreases ws.len(),
{
    let u = ws.update(j, after_birth(ws[j]));
    if j == ws.len() - 1 {
        assert(u.drop_last() =~= ws.drop_last());
    } else {
        assert(u.drop_last() =~= ws.drop_last().update(j, after_birth(ws.drop_last()[j])));
        lemma_count_after_birth(ws.drop_last(), j);
    }
}

/// Finds the first eligible worker, if any.
fn find_eligible(workers: &Vec<Worker>) -> (r: Option<usize>)
    ensures
        r matches Some(j) ==> is_first_eligible(workers@, j as int),
        r is None ==> forall|k: int| 0 <= k < workers@.len() ==> !(#[trigger] workers@[k]).spawn_eligible,
{
    let mut i: usize = 0;
    while i < workers.len()
        invariant
            i <= workers@.len(),
            forall|k: int| 0 <= k < i ==> !(#[trigger] workers@[k]).spawn_eligible,
        decreases workers@.len() - i,
    {
        if workers[i].spawn_eligible {
            return Some(i);
        }
        i = i + 1;
    }
    None
}

/// Gives the first eligible worker, if any, a child's worth of reset.
fn release_one(workers: &mut Vec<Worker>) -> (r: bool)
    ensures
        r == exists|j: int| is_first_eligible(old(workers)@, j),
        r ==> final(workers)@ == old(workers)@.update(
            choose|j: int| is_first_eligible(old(workers)@, j),
            after_birth(old(workers)@[choose|j: int| is_first_eligible(old(workers)@, j)]),
        ),
        !r ==> final(workers)@ == old(workers)@,
{
    match find_eligible(workers) {
        Some(j) => {
            let mut w = workers[j];
            w.days_with_both = 0;
            w.spawn_eligible = false;
            proof {
                let c = choose|k: int| is_first_eligible(old(workers)@, k);
                if c < j {
                    assert(!workers@[c].spawn_eligible);
                }
                if j < c {
                    assert(!workers@[j as int].spawn_eligible);
                }
                assert(c == j);
                assert(w == after_birth(old(workers)@[j as int]));
            }
            workers.set(j, w);
            true
        },
        None => {
            proof {
                if exists|j: int| is_first_eligible(old(workers)@, j) {
                    let c = choose|k: int| is_first_eligible(old(workers)@, k);
                    assert(workers@[c].spawn_eligible);
                }
            }
            false
        },
    }
}

/// Feeds and shelters the workers, lists who dies, and for each worker who
/// may have a child makes one draw that succeeds one time in twenty; each
/// success resets the first worker still eligible. Returns the number of
/// births and the deaths, by index and id, in index order.
pub fn process_worker_lifecycle(village: &mut Village, logger: &mut EventLogger, tick: usize) -> (r: (
    usize,
    Vec<(usize, usize, DeathCause)>,
))
    requires
        tame(old(village).food),
        counters_ok(old(village).workers@),
        houses_ok(old(village).houses@),
    ensures
        ({
            let t = tend_state(
                old(village).food,
                shelter_dec(old(village).houses@),
                old(village).workers@,
                old(village).workers@.len(),
            );
            &&& *final(village) == (Village {
                food: t.0,
                workers: final(village).workers,
                rng: final(village).rng,
                ..*old(village)
            })
            &&& final(village).rng is Some <==> old(village).rng is Some
            &&& r.0 <= count_eligible(t.3)
            &&& final(village).workers@ == births_from(t.3, r.0 as nat)
            &&& r.1@ == deaths_among(t.3, t.3.len())
            &&& appended(
                old(logger)@,
                final(logger)@,
                if t.2.v() > 0 {
                    seq![
                        rec(
                            tick,
                            old(village).id_str,
                            EventType::ResourceConsumed {
                                resource: ResourceType::Food,
                                amount: t.2,
                                purpose: ConsumptionPurpose::WorkerFeeding,
                            },
                        ),
                    ]
                } else {
                    Seq::empty()
                },
            )
        }),
        old(village).food.v() >= 0 ==> final(village).food.v() >= 0,
{
    let removals = tend_workers(village, logger, tick);
    let ghost tended_ws = village.workers@;
    let ghost v1 = *village;
    let mut eligible_count: usize = 0;
    let mut i: usize = 0;
    while i < village.workers.len()
        invariant
            i <= village.workers@.len(),
            eligible_count == count_eligible(village.workers@.take(i as int)),
        decreases village.workers@.len() - i,
    {
        proof {
            assert(village.workers@.take(i as int + 1).drop_last() == village.workers@.take(i as int));
            assert(village.workers@.take(i as int + 1).last() == village.workers@[i as int]);
            lemma_count_eligible_bound(village.workers@.take(i as int));
        }
        if village.workers[i].spawn_eligible {
            eligible_count = eligible_count + 1;
        }
        i = i + 1;
    }
    proof {
        assert(village.workers@.take(village.workers@.len() as int) == village.workers@);
    }
    let mut new_workers: usize = 0;
    let mut d: usize = 0;
    while d < eligible_count
        invariant
            d <= eligible_count,
            eligible_count == count_eligible(tended_ws),
            new_workers <= d,
            village.workers@ == births_from(tended_ws, new_workers as nat),
            count_eligible(village.workers@) + new_workers == count_eligible(tended_ws),
            *village == (Village { workers: village.workers, rng: village.rng, ..v1 }),
            village.rng is Some <==> v1.rng is Some,
        decreases eligible_count - d,
    {
        if village.should_spawn_worker() {
            proof {
                lemma_count_positive(village.workers@);
                let j = choose|j: int|
                    0 <= j < village.workers@.len() && (#[trigger] village.workers@[j]).spawn_eligible;
                lemma_first_eligible_exists(village.workers@, j);
            }
            let ghost before = village.workers@;
            let released = release_one(&mut village.workers);
            proof {
                assert(released);
                let j = choose|j: int| is_first_eligible(before, j);
                lemma_count_after_birth(before, j);
                assert(births_from(tended_ws, (new_workers + 1) as nat) == village.workers@);
            }
            new_workers = new_workers + 1;
        }
        d = d + 1;
    }
    (new_workers, removals)
}

/// The indices are strictly increasing and each names a worker.
pub open spec fn removable(rs: Seq<(usize, usize, DeathCause)>, len: nat) -> bool {
    &&& forall|k: int| 0 <= k < rs.len() ==> (#[trigger] rs[k]).0 < len
    &&& forall|a: int, b: int| 0 <= a < b < rs.len() ==> (#[trigger] rs[a]).0 < (#[trigger] rs[b]).0
}

/// The workers left once those at the listed indices are gone.
pub open spec fn remove_all(ws: Seq<Worker>, rs: Seq<(usize, usize, DeathCause)>) -> Seq<Worker>
    decreases rs.len(),
{
    if rs.len() == 0 {
        ws
    } else {
        remove_all(ws.remove(rs.last().0 as int), rs.drop_last())
    }
}

/// A newborn worker.
pub open spec fn newborn(id: usize) -> Worker {
    Worker {
        id,
        days_without_food: 0,
        days_without_shelter: 0,
        days_with_both: 0,
        spawn_eligible: false,
    }
}

/// `n` newborn workers, numbered from `first_id`.
pub open spec fn newborns(first_id: usize, n: nat) -> Seq<Worker> {
    Seq::new(n, |k: int| newborn((first_id + k) as usize))
}

/// The deaths logged, last index first, each with the population less one.
pub open spec fn death_records(
    tick: usize,
    id: String,
    rs: Seq<(usize, usize, DeathCause)>,
    population: nat,
) -> Seq<Record> {
    Seq::new(
        rs.len(),
        |k: int|
            rec(
                tick,
                id,
                EventType::WorkerDied {
                    worker_id: rs[rs.len() - 1 - k].1,
                    cause: rs[rs.len() - 1 - k].2,
                    total_population: (population - 1) as usize,
                },
            ),
    )
}

/// The births logged, each with the population it brings the village to.
pub open spec fn birth_records(
    tick: usize,
    id: String,
    first_id: usize,
    population: nat,
    n: nat,
) -> Seq<Record> {
    Seq::new(
        n,
        |k: int|
            rec(
                tick,
                id,
                EventType::WorkerBorn {
                    worker_id: (first_id + k) as usize,
                    total_population: (population + k + 1) as usize,
                },
            ),
    )
}

proof fn lemma_remove_all_len(ws: Seq<Worker>, rs: Seq<(usize, usize, DeathCause)>)
    requires
        removable(rs, ws.len()),
    ensures
        remove_all(ws, rs).len() == ws.len() - rs.len(),
    decreases rs.len(),
{
    if rs.len() > 0 {
        let last = rs.last().0 as int;
        assert(removable(rs.drop_last(), (ws.len() - 1) as nat)) by {
            assert forall|k: int| 0 <= k < rs.drop_last().len() implies (
            #[trigger] rs.drop_last()[k]).0 < ws.len() - 1 by {
                assert(rs[k].0 < rs[rs.len() - 1].0);
            }
        }
        lemma_remove_all_len(ws.remove(last), rs.drop_last());
    }
}

/// Logs and removes the dead (highest index first, so that the others keep
/// their places), then adds and logs the newborns.
pub fn apply_worker_changes(
    village: &mut Village,
    new_workers: usize,
    workers_to_remove: Vec<(usize, usize, DeathCause)>,
    logger: &mut EventLogger,
    tick: usize,
)
    requires
        removable(workers_to_remove@, old(village).workers@.len()),
        old(village).next_worker_id + new_workers <= usize::MAX,
        old(village).workers@.len() + new_workers < usize::MAX,
    ensures
        *final(village) == (Village {
            workers: final(village).workers,
            next_worker_id: (old(village).next_worker_id + new_workers) as usize,
            ..*old(village)
        }),
        final(village).workers@ == remove_all(old(village).workers@, workers_to_remove@) + newborns(
            old(village).next_worker_id,
            new_workers as nat,
        ),
        appended(
            old(logger)@,
            final(logger)@,
            death_records(
                tick,
                old(village).id_str,
                workers_to_remove@,
                old(village).workers@.len(),
            ) + birth_records(
                tick,
                old(village).id_str,
                old(village).next_worker_id,
                (old(village).workers@.len() - workers_to_remove@.len()) as nat,
                new_workers as nat,
            ),
        ),
{
    let ghost v0 = *village;
    let ghost rs = workers_to_remove@;
    let ghost log0 = logger@;
    let n = workers_to_remove.len();
    let population = village.workers.len();
    proof {
        lemma_appended_none(log0);
        if n > 0 {
            assert(rs[0].0 < population);
        }
    }
    let mut k: usize = 0;
    while k < n
        invariant
            k <= n,
            n == rs.len(),
            rs == workers_to_remove@,
            population == v0.workers@.len(),
            n > 0 ==> population > 0,
            *village == v0,
            appended(log0, logger@, death_records(tick, v0.id_str, rs, population as nat).take(k as int)),
        decreases n - k,
    {
        let entry = workers_to_remove[n - 1 - k];
        let ghost before = logger@;
        logger.log(
            tick,
            village.id_str.clone(),
            EventType::WorkerDied {
                worker_id: entry.1,
                cause: entry.2,
                total_population: population - 1,
            },
        );
        proof {
            let all = death_records(tick, v0.id_str, rs, population as nat);
            lemma_appended_trans(log0, before, logger@, all.take(k as int), seq![all[k as int]]);
            assert(all.take(k as int) + seq![all[k as int]] =~= all.take(k + 1));
        }
        k = k + 1;
    }
    let ghost log1 = logger@;
    proof {
        let all = death_records(tick, v0.id_str, rs, population as nat);
        assert(all.take(n as int) =~= all);
        assert(rs.take(n as int) =~= rs);
    }
    let mut m: usize = n;
    while m > 0
        invariant
            m <= n,
            n == rs.len(),
            rs == workers_to_remove@,
            removable(rs, v0.workers@.len()),
            removable(rs.take(m as int), village.workers@.len()),
            remove_all(village.workers@, rs.take(m as int)) == remove_all(v0.workers@, rs),
            *village == (Village { workers: village.workers, ..v0 }),
            village.workers@.len() == v0.workers@.len() - (n - m),
        decreases m,
    {
        let idx = workers_to_remove[m - 1].0;
        let ghost before = village.workers@;
        proof {
            assert(rs.take(m as int)[m - 1] == rs[m - 1]);
            assert(idx < village.workers@.len());
        }
        village.workers.remove(idx);
        proof {
            let t = rs.take(m as int);
            assert(t.last().0 == idx);
            assert(t.drop_last() =~= rs.take(m - 1));
            assert(removable(rs.take(m - 1), village.workers@.len())) by {
                assert forall|q: int| 0 <= q < rs.take(m - 1).len() implies (
                #[trigger] rs.take(m - 1)[q]).0 < village.workers@.len() by {
                    assert(rs[q].0 < rs[m - 1].0);
                }
            }
        }
        m = m - 1;
    }
    proof {
        assert(rs.take(0) =~= Seq::<(usize, usize, DeathCause)>::empty());
        lemma_remove_all_len(v0.workers@, rs);
    }
    let ghost remaining = village.workers@;
    let mut b: usize = 0;
    while b < new_workers
        invariant
            b <= new_workers,
            v0.next_worker_id + new_workers <= usize::MAX,
            v0.workers@.len() + new_workers < usize::MAX,
            remaining.len() == v0.workers@.len() - rs.len(),
            village.workers@ == remaining + newborns(v0.next_worker_id, b as nat),
            village.next_worker_id == v0.next_worker_id + b,
            *village == (Village {
                workers: village.workers,
                next_worker_id: village.next_worker_id,
                ..v0
            }),
            appended(
                log1,
                logger@,
                birth_records(tick, v0.id_str, v0.next_worker_id, remaining.len(), b as nat),
            ),
        decreases new_workers - b,
    {
        let new_worker = Worker {
            id: village.next_worker_id,
            days_without_food: 0,
            days_without_shelter: 0,
            days_with_both: 0,
            spawn_eligible: false,
        };
        village.next_worker_id = village.next_worker_id + 1;
        let ghost before = logger@;
        logger.log(
            tick,
            village.id_str.clone(),
            EventType::WorkerBorn {
                worker_id: new_worker.id,
                total_population: village.workers.len() + 1,
            },
        );
        village.workers.push(new_worker);
        proof {
            let all = birth_records(tick, v0.id_str, v0.next_worker_id, remaining.len(), (b + 1) as nat);
            let prev = birth_records(tick, v0.id_str, v0.next_worker_id, remaining.len(), b as nat);
            lemma_appended_trans(log1, before, logger@, prev, seq![all[b as int]]);
            assert(prev + seq![all[b as int]] =~= all);
            assert(village.workers@ =~= remaining + newborns(v0.next_worker_id, (b + 1) as nat));
        }
        b = b + 1;
    }
    proof {
        let d = death_records(tick, v0.id_str, rs, population as nat);
        let br = birth_records(tick, v0.id_str, v0.next_worker_id, remaining.len(), new_workers as nat);
        lemma_appended_trans(log0, log1, logger@, d, br);
    }
}

/// Wood, wood used for upkeep, houses, and decay records after the first `n`
/// houses are kept up: each takes 0.1 wood when there is that much, and then
/// one below level zero is repaired by 0.1 with another 0.1 wood if there is
/// that much; a house that gets no wood decays by 0.1.
pub open spec fn upkeep_state(tick: usize, id: String, wood: Dec, hs: Seq<House>, n: nat) -> (
    Dec,
    Dec,
    Seq<House>,
    Seq<Record>,
)
    decreases n,
{
    if n == 0 {
        (wood, Dec { mantissa: 0, scale: 0 }, Seq::empty(), Seq::empty())
    } else {
        let prev = upkeep_state(tick, id, wood, hs, (n - 1) as nat);
        let h = hs[n - 1];
        if prev.0.v() >= unit() / 10 {
            let w1 = decimal_difference(prev.0, tenth());
            let used1 = decimal_sum(prev.1, tenth());
            if w1.v() >= unit() / 10 && h.maintenance_level.v() < 0 {
                (
                    decimal_difference(w1, tenth()),
                    decimal_sum(used1, tenth()),
                    prev.2.push(
                        House {
                            maintenance_level: decimal_sum(h.maintenance_level, tenth()),
                            ..h
                        },
                    ),
                    prev.3,
                )
            } else {
                (w1, used1, prev.2.push(h), prev.3)
            }
        } else {
            let level = decimal_difference(h.maintenance_level, tenth());
            (
                prev.0,
                prev.1,
                prev.2.push(House { maintenance_level: level, ..h }),
                prev.3.push(
                    rec(tick, id, EventType::HouseDecayed { house_id: h.id, maintenance_level: level }),
                ),
            )
        }
    }
}

proof fn lemma_upkeep_len(tick: usize, id: String, wood: Dec, hs: Seq<House>, n: nat)
    ensures
        upkeep_state(tick, id, wood, hs, n).2.len() == n,
    decreases n,
{
    if n > 0 {
        lemma_upkeep_len(tick, id, wood, hs, (n - 1) as nat);
    }
}

/// Keeps up each house in turn, then logs the wood used, if any.
pub fn process_house_maintenance(village: &mut Village, logger: &mut EventLogger, tick: usize)
    requires
        tame(old(village).wood),
        houses_ok(old(village).houses@),
    ensures
        ({
            let u = upkeep_state(
                tick,
                old(village).id_str,
                old(village).wood,
                old(village).houses@,
                old(village).houses@.len(),
            );
            &&& *final(village) == (Village { wood: u.0, houses: final(village).houses, ..*old(village) })
            &&& final(village).houses@ == u.2
            &&& appended(
                old(logger)@,
                final(logger)@,
                u.3 + if u.1.v() > 0 {
                    seq![
                        rec(
                            tick,
                            old(village).id_str,
                            EventType::ResourceConsumed {
                                resource: ResourceType::Wood,
                                amount: u.1,
                                purpose: ConsumptionPurpose::HouseMaintenance,
                            },
                        ),
                    ]
                } else {
                    Seq::empty()
                },
            )
        }),
        old(village).wood.v() >= 0 ==> final(village).wood.v() >= 0,
{
    proof {
        lemma_unit();
    }
    let ghost v0 = *village;
    let ghost hs0 = village.houses@;
    let ghost log0 = logger@;
    let tenth_wood = Dec::new(1, 1);
    let zero_level = Dec::new(0, 1);
    let mut used = Dec::zero();
    let mut i: usize = 0;
    let _count = village.houses.len();
    proof {
        lemma_appended_none(log0);
    }
    while i < village.houses.len()
        invariant
            i <= village.houses@.len(),
            village.houses@.len() == hs0.len(),
            hs0.len() <= usize::MAX,
            tenth_wood == tenth(),
            zero_level.wf(),
            zero_level.v() == 0,
            pow10(27) * 10 == unit(),
            unit() == 10000000000000000000000000000,
            houses_ok(hs0),
            tame(v0.wood),
            ({
                let u = upkeep_state(tick, v0.id_str, v0.wood, hs0, i as nat);
                &&& village.wood == u.0
                &&& used == u.1
                &&& village.houses@ == u.2 + hs0.subrange(i as int, hs0.len() as int)
                &&& appended(log0, logger@, u.3)
            }),
            village.wood.wf(),
            used.wf(),
            abs_int(village.wood.v()) <= tame_bound() + 2 * unit() * i,
            v0.wood.v() >= 0 ==> village.wood.v() >= 0,
            abs_int(used.v()) <= 2 * unit() * i,
            *village == (Village { wood: village.wood, houses: village.houses, ..v0 }),
        decreases hs0.len() - i,
    {
        let ghost u = upkeep_state(tick, v0.id_str, v0.wood, hs0, i as nat);
        let mut house = village.houses[i];
        let ghost log_before = logger@;
        proof {
            lemma_upkeep_len(tick, v0.id_str, v0.wood, hs0, i as nat);
            assert(house == hs0[i as int]);
            assert(tame(house.maintenance_level));
            assert(2 * unit() * i + 2 * unit() <= 40000000000000000000000000000000000000000000000000)
                by (nonlinear_arith)
                requires
                    i <= 18446744073709551615,
                    unit() == 10000000000000000000000000000,
            ;
        }
        if village.wood.ge(&tenth_wood) {
            let ghost before = village.wood;
            village.wood = dec_sub(village.wood, tenth_wood);
            used = dec_add(used, tenth_wood);
            proof {
                lemma_v_sign(village.wood);
                lemma_v_sign(used);
                lemma_rounded_nonneg(village.wood, before.v() - tenth_wood.v());
            }
            if village.wood.ge(&tenth_wood) && house.maintenance_level.lt(&zero_level) {
                house.maintenance_level = dec_add(house.maintenance_level, tenth_wood);
                let ghost before2 = village.wood;
                village.wood = dec_sub(village.wood, tenth_wood);
                proof {
                    lemma_rounded_nonneg(village.wood, before2.v() - tenth_wood.v());
                }
                used = dec_add(used, tenth_wood);
            }
            proof {
                lemma_appended_none(logger@);
            }
        } else {
            house.maintenance_level = dec_sub(house.maintenance_level, tenth_wood);
            logger.log(
                tick,
                village.id_str.clone(),
                EventType::HouseDecayed { house_id: house.id, maintenance_level: house.maintenance_level },
            );
        }
        village.houses.set(i, house);
        proof {
            lemma_v_sign(village.wood);
            lemma_v_sign(used);
            let u1 = upkeep_state(tick, v0.id_str, v0.wood, hs0, (i + 1) as nat);
            assert(u1.2 == u.2.push(house));
            assert(village.houses@ =~= u1.2 + hs0.subrange(i + 1, hs0.len() as int));
            if u.0.v() >= unit() / 10 {
                assert(u1.3 == u.3);
                assert(u.3 + Seq::<Record>::empty() =~= u.3);
                lemma_appended_trans(log0, log_before, logger@, u.3, Seq::empty());
            } else {
                lemma_appended_trans(log0, log_before, logger@, u.3, seq![u1.3.last()]);
                assert(u.3 + seq![u1.3.last()] =~= u1.3);
            }
        }
        i = i + 1;
    }
    proof {
        lemma_upkeep_len(tick, v0.id_str, v0.wood, hs0, hs0.len());
        assert(hs0.subrange(hs0.len() as int, hs0.len() as int) =~= Seq::<House>::empty());
        assert(village.houses@ =~= upkeep_state(tick, v0.id_str, v0.wood, hs0, hs0.len()).2);
    }
    let ghost log1 = logger@;
    if used.gt(&Dec::zero()) {
        logger.log(
            tick,
            village.id_str.clone(),
            EventType::ResourceConsumed {
                resource: ResourceType::Wood,
                amount: used,
                purpose: ConsumptionPurpose::HouseMaintenance,
            },
        );
    } else {
        proof {
            lemma_appended_none(log1);
        }
    }
    proof {
        let u = upkeep_state(tick, v0.id_str, v0.wood, hs0, hs0.len());
        let tail = if u.1.v() > 0 {
            seq![
                rec(
                    tick,
                    v0.id_str,
                    EventType::ResourceConsumed {
                        resource: ResourceType::Wood,
                        amount: u.1,
                        purpose: ConsumptionPurpose::HouseMaintenance,
                    },
                ),
            ]
        } else {
            Seq::<Record>::empty()
        };
        lemma_appended_trans(log0, log1, logger@, u.3, tail);
    }
}

proof fn lemma_deaths_removable(ws: Seq<Worker>, n: nat)
    requires
        n <= ws.len(),
        ws.len() <= usize::MAX,
    ensures
        removable(deaths_among(ws, n), ws.len()),
        forall|k: int| 0 <= k < deaths_among(ws, n).len() ==> (#[trigger] deaths_among(ws, n)[k]).0 < n,
        deaths_among(ws, n).len() <= n,
    decreases n,
{
    if n > 0 {
        lemma_deaths_removable(ws, (n - 1) as nat);
        let prev = deaths_among(ws, (n - 1) as nat);
        let cur = deaths_among(ws, n);
        assert forall|a: int, b: int| 0 <= a < b < cur.len() implies (#[trigger] cur[a]).0 < (
        #[trigger] cur[b]).0 by {
            if b == cur.len() - 1 && cur.len() > prev.len() {
                assert(cur[a] == prev[a]);
            } else {
                assert(cur[a] == prev[a]);
                assert(cur[b] == prev[b]);
            }
        }
        assert forall|q: int| 0 <= q < cur.len() implies (#[trigger] cur[q]).0 < n by {
            if q < prev.len() {
                assert(cur[q] == prev[q]);
            }
        }
    }
}

proof fn lemma_births_len(ws: Seq<Worker>, k: nat)
    ensures
        births_from(ws, k).len() == ws.len(),
    decreases k,
{
    if k > 0 {
        lemma_births_len(ws, (k - 1) as nat);
    }
}

proof fn lemma_new_houses_ok(hs: Seq<House>, first_id: usize, n: nat)
    requires
        houses_ok(hs),
    ensures
        houses_ok(hs + new_houses(first_id, n)),
{
    lemma_unit();
    assert forall|k: int| 0 <= k < (hs + new_houses(first_id, n)).len() implies tame(
        (#[trigger] (hs + new_houses(first_id, n))[k]).maintenance_level,
    ) by {
        if k >= hs.len() {
            assert((hs + new_houses(first_id, n))[k] == new_houses(first_id, n)[k - hs.len()]);
        }
    }
}

/// The allotted worker-days add up to the village's worker-days, to within
/// 0.001, in the decimal arithmetic that checks it.
pub open spec fn allocation_ok(v: Village, a: Allocation) -> bool {
    abs_int(
        decimal_difference(
            decimal_sum(decimal_sum(a.wood, a.food), a.house_construction),
            worker_days_dec(v.workers@),
        ).v(),
    ) < unit() / 1000
}

/// What a day may start from: stocks and work small enough for the
/// arithmetic, day counts and identifiers below their limits, and work allotted
/// that adds up to the worker-days.
pub open spec fn day_ready(v: Village, a: Allocation) -> bool {
    &&& v.wood.wf()
    &&& abs_int(v.wood.v()) <= tame_bound() / 2
    &&& v.food.wf()
    &&& abs_int(v.food.v()) <= tame_bound() / 2
    &&& v.money.wf()
    &&& tame(v.construction_progress)
    &&& tame(a.wood)
    &&& tame(a.food)
    &&& tame(a.house_construction)
    &&& allocation_ok(v, a)
    &&& counters_ok(v.workers@)
    &&& houses_ok(v.houses@)
    &&& v.next_worker_id + v.workers@.len() <= usize::MAX
    &&& 2 * v.workers@.len() < usize::MAX
    &&& v.next_house_id + abs_int(v.wood.v()) / unit() + 2 * (v.wood_slots.0 + v.wood_slots.1) + 8
        < usize::MAX
    &&& v.houses@.len() + abs_int(v.wood.v()) / unit() + 2 * (v.wood_slots.0 + v.wood_slots.1) + 8
        < usize::MAX
}

/// Wood and food after a day's production.
pub open spec fn stocks_after_production(v: Village, a: Allocation) -> (Dec, Dec) {
    let wood_out = output_of(v.wood_slots, tenth(), a.wood);
    let food_out = output_of(v.food_slots, two(), a.food);
    (
        if wood_out.v() > 0 {
            decimal_sum(v.wood, wood_out)
        } else {
            v.wood
        },
        if food_out.v() > 0 {
            decimal_sum(v.food, food_out)
        } else {
            v.food
        },
    )
}

/// The record that a house upkeep's wood, if any, is logged with.
pub open spec fn upkeep_consumption(tick: usize, id: String, used: Dec) -> Seq<Record> {
    if used.v() > 0 {
        seq![
            rec(
                tick,
                id,
                EventType::ResourceConsumed {
                    resource: ResourceType::Wood,
                    amount: used,
                    purpose: ConsumptionPurpose::HouseMaintenance,
                },
            ),
        ]
    } else {
        Seq::empty()
    }
}

/// The record that the food eaten, if any, is logged with.
pub open spec fn feeding_consumption(tick: usize, id: String, eaten: Dec) -> Seq<Record> {
    if eaten.v() > 0 {
        seq![
            rec(
                tick,
                id,
                EventType::ResourceConsumed {
                    resource: ResourceType::Food,
                    amount: eaten,
                    purpose: ConsumptionPurpose::WorkerFeeding,
                },
            ),
        ]
    } else {
        Seq::empty()
    }
}

/// One day of village `v` with allocation `a`, where `n` houses get built and
/// `k` children are born, ends with village `w` and the log grown from
/// `log_before` to `log_after`.
pub open spec fn day_result(
    v: Village,
    a: Allocation,
    tick: usize,
    log_before: Seq<Event>,
    w: Village,
    log_after: Seq<Event>,
    n: nat,
    k: nat,
) -> bool {
    let (wood1, food1) = stocks_after_production(v, a);
    let p = decimal_sum(v.construction_progress, a.house_construction);
    let building = a.house_construction.v() > 0;
    let built_n = if building {
        n
    } else {
        0
    };
    let wood2 = repeat_less(wood1, house_wood(), built_n);
    let houses2 = v.houses@ + new_houses(v.next_house_id, built_n);
    let t = tend_state(food1, shelter_dec(houses2), v.workers@, v.workers@.len());
    let deaths = deaths_among(t.3, v.workers@.len());
    let workers = remove_all(births_from(t.3, k), deaths) + newborns(v.next_worker_id, k);
    let u = upkeep_state(tick, v.id_str, wood2, houses2, houses2.len());
    let wood_out = output_of(v.wood_slots, tenth(), a.wood);
    let food_out = output_of(v.food_slots, two(), a.food);
    &&& building ==> builds(p, wood1, n)
    &&& k <= count_eligible(t.3)
    &&& w.id == v.id
    &&& w.id_str == v.id_str
    &&& w.money == v.money
    &&& w.wood_slots == v.wood_slots
    &&& w.food_slots == v.food_slots
    &&& w.wood == u.0
    &&& w.food == t.0
    &&& w.houses@ == u.2
    &&& w.workers@ == workers
    &&& w.construction_progress == (if building {
        repeat_less(p, house_work(), n)
    } else {
        v.construction_progress
    })
    &&& w.next_house_id == v.next_house_id + built_n
    &&& w.next_worker_id == v.next_worker_id + k
    &&& (w.rng is Some <==> v.rng is Some)
    &&& appended(
        log_before,
        log_after,
        seq![allocation_record(tick, v, a)] + production_records(
            tick,
            v.id_str,
            wood_out,
            whole_u32(a.wood) as usize,
            food_out,
            whole_u32(a.food) as usize,
        ) + construction_records(tick, v.id_str, v.next_house_id, v.houses@.len(), built_n)
            + feeding_consumption(tick, v.id_str, t.2) + death_records(
            tick,
            v.id_str,
            deaths,
            v.workers@.len(),
        ) + birth_records(
            tick,
            v.id_str,
            v.next_worker_id,
            (v.workers@.len() - deaths.len()) as nat,
            k,
        ) + u.3 + upkeep_consumption(tick, v.id_str, u.1) + seq![
            rec(
                tick,
                v.id_str,
                EventType::VillageStateSnapshot {
                    population: workers.len() as usize,
                    houses: houses2.len() as usize,
                    food: t.0,
                    wood: u.0,
                    money: v.money,
                },
            ),
        ],
    )
}

/// Whether a decimal is within the range the day's arithmetic allows.
pub fn is_tame(d: &Dec) -> (r: bool)
    ensures
        r == tame(*d),
{
    if !d.is_wf() {
        return false;
    }
    let bound = Dec { mantissa: 10000000000000000000000, scale: 0 };
    proof {
        lemma_unit();
        assert(bound.v() == tame_bound());
    }
    d.abs().le(&bound)
}

/// Whether a decimal is within half that range.
fn is_half_tame(d: &Dec) -> (r: bool)
    ensures
        r == (d.wf() && abs_int(d.v()) <= tame_bound() / 2),
{
    if !d.is_wf() {
        return false;
    }
    let bound = Dec { mantissa: 5000000000000000000000, scale: 0 };
    proof {
        lemma_unit();
        assert(bound.v() == tame_bound() / 2);
    }
    d.abs().le(&bound)
}

/// Whether a village may start a day with the allocation: `day_ready`,
/// checked.
pub fn day_ready_check(v: &Village, a: &Allocation) -> (r: bool)
    ensures
        r == day_ready(*v, *a),
{
    if !(is_half_tame(&v.wood) && is_half_tame(&v.food) && v.money.is_wf() && is_tame(
        &v.construction_progress,
    ) && is_tame(&a.wood) && is_tame(&a.food) && is_tame(&a.house_construction)) {
        return false;
    }
    if !allocation_matches(v, a) {
        return false;
    }
    let mut i: usize = 0;
    while i < v.workers.len()
        invariant
            i <= v.workers@.len(),
            forall|k: int| 0 <= k < i ==> {
                let w = #[trigger] v.workers@[k];
                &&& w.days_without_food < u32::MAX
                &&& w.days_without_shelter < u32::MAX
                &&& w.days_with_both < u32::MAX
            },
        decreases v.workers@.len() - i,
    {
        let w = &v.workers[i];
        if w.days_without_food == u32::MAX || w.days_without_shelter == u32::MAX || w.days_with_both
            == u32::MAX {
            proof {
                assert(!counters_ok(v.workers@)) by {
                    assert(v.workers@[i as int] == *w);
                }
            }
            return false;
        }
        i = i + 1;
    }
    let mut j: usize = 0;
    while j < v.houses.len()
        invariant
            j <= v.houses@.len(),
            forall|k: int| 0 <= k < j ==> tame((#[trigger] v.houses@[k]).maintenance_level),
        decreases v.houses@.len() - j,
    {
        if !is_tame(&v.houses[j].maintenance_level) {
            proof {
                assert(!houses_ok(v.houses@)) by {
                    assert(v.houses@[j as int] == v.houses[j as int]);
                }
            }
            return false;
        }
        j = j + 1;
    }
    let n = v.workers.len() as u128;
    if (v.next_worker_id as u128) + n > usize::MAX as u128 || 2 * n >= usize::MAX as u128 {
        return false;
    }
    let whole = match dec_to_u64(&v.wood.abs()) {
        Some(w) => w as u128,
        None => {
            proof {
                lemma_unit();
            }
            return false;
        },
    };
    let slots = 2 * ((v.wood_slots.0 as u128) + (v.wood_slots.1 as u128)) + 8;
    proof {
        lemma_unit();
        assert(whole == abs_int(v.wood.v()) / unit());
    }
    (v.next_house_id as u128) + whole + slots < usize::MAX as u128 && (v.houses.len() as u128)
        + whole + slots < usize::MAX as u128
}

/// Whether the allotted worker-days add up to the village's, to within 0.001.
pub fn allocation_matches(village: &Village, allocation: &Allocation) -> (r: bool)
    requires
        tame(allocation.wood),
        tame(allocation.food),
        tame(allocation.house_construction),
    ensures
        r == allocation_ok(*village, *allocation),
{
    proof {
        lemma_unit();
    }
    let worker_days = village.worker_days();
    let population = village.workers.len();
    proof {
        lemma_total_productivity_bounds(village.workers@);
        assert(population == village.workers@.len());
        lemma_v_sign(worker_days);
        assert(village.workers@.len() * unit() <= tame_bound()) by (nonlinear_arith)
            requires
                village.workers@.len() <= 18446744073709551615,
                unit() == 10000000000000000000000000000,
                tame_bound() == 100000000000000000000000000000000000000000000000000,
        ;
    }
    let s1 = dec_add(allocation.wood, allocation.food);
    proof {
        lemma_v_sign(s1);
    }
    let s2 = dec_add(s1, allocation.house_construction);
    proof {
        lemma_v_sign(s2);
    }
    let diff = dec_sub(s2, worker_days);
    let tolerance = Dec::new(1, 3);
    proof {
        lemma_pow10_small();
    }
    diff.abs().lt(&tolerance)
}

proof fn lemma_pow10_small()
    ensures
        pow10(25) * 1000 == unit(),
{
    reveal_with_fuel(pow10, 29);
}

/// One day of a village: logs the allocation, produces, builds, feeds and
/// shelters the workers, applies deaths and births, keeps up the houses, and
/// logs the village's state. Which children are born rests on random draws;
/// everything else follows from the village and the allocation.
#[verifier::spinoff_prover]
#[verifier::rlimit(40)]
pub fn update_village(
    village: &mut Village,
    allocation: Allocation,
    logger: &mut EventLogger,
    tick: usize,
)
    requires
        day_ready(*old(village), allocation),
    ensures
        old(village).wood.v() >= 0 ==> final(village).wood.v() >= 0,
        old(village).food.v() >= 0 ==> final(village).food.v() >= 0,
        exists|n: nat, k: nat|
            #[trigger] day_result(
                *old(village),
                allocation,
                tick,
                old(logger)@,
                *final(village),
                final(logger)@,
                n,
                k,
            ),
{
    let ghost v0 = *village;
    let ghost log0 = logger@;
    proof {
        lemma_unit();
    }
    log_worker_allocation(village, &allocation, logger, tick);
    let ghost log1 = logger@;
    proof {
        assert(tame(village.wood)) by {
            assert(tame_bound() / 2 <= tame_bound());
        }
        assert(tame(village.food)) by {
            assert(tame_bound() / 2 <= tame_bound());
        }
    }
    process_production(village, &allocation, logger, tick);
    let ghost v1 = *village;
    let ghost log2 = logger@;
    proof {
        let wood_out = output_of(v0.wood_slots, tenth(), allocation.wood);
        let food_out = output_of(v0.food_slots, two(), allocation.food);
    }
    proof {
        let k = 2 * (v0.wood_slots.0 + v0.wood_slots.1) + 6;
        assert(abs_int(v1.wood.v()) <= abs_int(v0.wood.v()) + k * unit());
        lemma_div_shift(abs_int(v1.wood.v()), abs_int(v0.wood.v()), k, unit());
    }
    process_construction(village, &allocation, logger, tick);
    let ghost v2 = *village;
    let ghost log3 = logger@;
    let ghost n: nat = choose|n: nat|
        allocation.house_construction.v() > 0 && #[trigger] built(v1, allocation.house_construction, tick, log2, v2, log3, n);
    proof {
        if allocation.house_construction.v() <= 0 {
            lemma_appended_none(log2);
            assert(v2.houses@ =~= v1.houses@ + new_houses(v1.next_house_id, 0));
            assert(construction_records(tick, v1.id_str, v1.next_house_id, v1.houses@.len(), 0) =~= Seq::<Record>::empty());
        }
        lemma_new_houses_ok(v0.houses@, v0.next_house_id, if allocation.house_construction.v() > 0 { n } else { 0 });
    }
    let (new_workers, workers_to_remove) = process_worker_lifecycle(village, logger, tick);
    let ghost v3 = *village;
    let ghost log4 = logger@;
    proof {
        let t = tend_state(v2.food, shelter_dec(v2.houses@), v2.workers@, v2.workers@.len());
        lemma_tend_len(v2.food, shelter_dec(v2.houses@), v2.workers@, v2.workers@.len());
        lemma_deaths_removable(t.3, t.3.len());
        lemma_births_len(t.3, new_workers as nat);
        lemma_count_eligible_bound(t.3);
    }
    apply_worker_changes(village, new_workers, workers_to_remove, logger, tick);
    let ghost v4 = *village;
    let ghost log5 = logger@;
    process_house_maintenance(village, logger, tick);
    let ghost v5 = *village;
    let ghost log6 = logger@;
    logger.log(
        tick,
        village.id_str.clone(),
        EventType::VillageStateSnapshot {
            population: village.workers.len(),
            houses: village.houses.len(),
            food: village.food,
            wood: village.wood,
            money: village.money,
        },
    );
    proof {
        let k = new_workers as nat;
        let t = tend_state(v2.food, shelter_dec(v2.houses@), v2.workers@, v2.workers@.len());
        let u = upkeep_state(tick, v4.id_str, v4.wood, v4.houses@, v4.houses@.len());
        let (wood1, food1) = stocks_after_production(v0, allocation);
        lemma_upkeep_len(tick, v4.id_str, v4.wood, v4.houses@, v4.houses@.len());
        let r0 = seq![allocation_record(tick, v0, allocation)];
        let r1 = production_records(
            tick,
            v0.id_str,
            output_of(v0.wood_slots, tenth(), allocation.wood),
            whole_u32(allocation.wood) as usize,
            output_of(v0.food_slots, two(), allocation.food),
            whole_u32(allocation.food) as usize,
        );
        let built_n = if allocation.house_construction.v() > 0 { n } else { 0 };
        let r2 = construction_records(tick, v0.id_str, v0.next_house_id, v0.houses@.len(), built_n);
        let r3 = feeding_consumption(tick, v0.id_str, t.2);
        let deaths = deaths_among(t.3, v0.workers@.len());
        let r4 = death_records(tick, v0.id_str, deaths, v0.workers@.len());
        let r5 = birth_records(
            tick,
            v0.id_str,
            v0.next_worker_id,
            (v0.workers@.len() - deaths.len()) as nat,
            k,
        );
        let r6 = u.3 + upkeep_consumption(tick, v0.id_str, u.1);
        let r7 = seq![
            rec(
                tick,
                v0.id_str,
                EventType::VillageStateSnapshot {
                    population: v5.workers@.len() as usize,
                    houses: v5.houses@.len() as usize,
                    food: v5.food,
                    wood: v5.wood,
                    money: v5.money,
                },
            ),
        ];
        lemma_appended_trans(log0, log1, log2, r0, r1);
        lemma_appended_trans(log0, log2, log3, r0 + r1, r2);
        lemma_appended_trans(log0, log3, log4, r0 + r1 + r2, r3);
        lemma_appended_trans(log0, log4, log5, r0 + r1 + r2 + r3, r4 + r5);
        lemma_appended_trans(log0, log5, log6, r0 + r1 + r2 + r3 + (r4 + r5), r6);
        lemma_appended_trans(log0, log6, logger@, r0 + r1 + r2 + r3 + (r4 + r5) + r6, r7);
        assert(r0 + r1 + r2 + r3 + (r4 + r5) + r6 + r7 =~= r0 + r1 + r2 + r3 + r4 + r5 + u.3
            + upkeep_consumption(tick, v0.id_str, u.1) + r7);
        assert(day_result(v0, allocation, tick, log0, *village, logger@, n, k));
    }
}

/// `k` is the first entry of the list with the name.
pub open spec fn first_named(ids: Seq<(String, VillageId)>, name: Seq<char>, k: int) -> bool {
    &&& 0 <= k < ids.len()
    &&& ids[k].0@ == name
    &&& forall|i: int| 0 <= i < k ==> (#[trigger] ids[i]).0@ != name
}

/// The identifier listed for a village name: the first entry with that name.
pub open spec fn id_for(ids: Seq<(String, VillageId)>, name: Seq<char>) -> Option<VillageId> {
    if exists|k: int| first_named(ids, name, k) {
        Some(ids[choose|k: int| first_named(ids, name, k)].1)
    } else {
        None
    }
}

proof fn lemma_first_named_unique(ids: Seq<(String, VillageId)>, name: Seq<char>, a: int, b: int)
    requires
        first_named(ids, name, a),
        first_named(ids, name, b),
    ensures
        a == b,
{
    if a < b {
        assert(ids[a].0@ != name);
    }
    if b < a {
        assert(ids[b].0@ != name);
    }
}

/// The fill belongs to the village: the village's listed identifier hashes to
/// the fill's participant number.
pub open spec fn fill_belongs(ids: Seq<(String, VillageId)>, v: Village, f: FinalFill) -> bool {
    match id_for(ids, v.id_str@) {
        Some(vid) => participant_number(vid.0@) == f.participant_id.0,
        None => false,
    }
}

/// The first village that the fill belongs to.
pub open spec fn fill_target(ids: Seq<(String, VillageId)>, vs: Seq<Village>, f: FinalFill, j: int) -> bool {
    &&& 0 <= j < vs.len()
    &&& fill_belongs(ids, vs[j], f)
    &&& forall|i: int| 0 <= i < j ==> !fill_belongs(ids, #[trigger] vs[i], f)
}

/// The resource a fill trades: the one its id names, else wood.
pub open spec fn fill_resource(f: FinalFill) -> ResourceType {
    match resource_named(f.resource_id.0@) {
        Some(r) => r,
        None => ResourceType::Wood,
    }
}

/// A village after one of its fills: a buyer pays quantity times price and
/// gains the quantity; a seller receives the payment and gives it up.
pub open spec fn after_fill(v: Village, f: FinalFill) -> Village {
    let q = whole(f.filled_quantity as int);
    let value = decimal_product(q, f.price);
    let buy = f.order_type == OrderType::Bid;
    let wood = fill_resource(f) == ResourceType::Wood;
    Village {
        money: if buy {
            decimal_difference(v.money, value)
        } else {
            decimal_sum(v.money, value)
        },
        wood: if wood {
            if buy {
                decimal_sum(v.wood, q)
            } else {
                decimal_difference(v.wood, q)
            }
        } else {
            v.wood
        },
        food: if !wood {
            if buy {
                decimal_sum(v.food, q)
            } else {
                decimal_difference(v.food, q)
            }
        } else {
            v.food
        },
        ..v
    }
}

/// The record a settled fill is logged with; `market` names the other side.
pub open spec fn trade_record(tick: usize, v: Village, f: FinalFill, market: String) -> Record {
    rec(
        tick,
        v.id_str,
        EventType::TradeExecuted {
            resource: fill_resource(f),
            quantity: whole(f.filled_quantity as int),
            price: f.price,
            counterparty: market,
            side: if f.order_type == OrderType::Bid {
                TradeSide::Buy
            } else {
                TradeSide::Sell
            },
        },
    )
}

/// The villages and the records after the first `n` fills are settled.
pub open spec fn settle_state(
    ids: Seq<(String, VillageId)>,
    vs: Seq<Village>,
    fills: Seq<FinalFill>,
    tick: usize,
    market: String,
    n: nat,
) -> (Seq<Village>, Seq<Record>)
    decreases n,
{
    if n == 0 {
        (vs, Seq::empty())
    } else {
        let prev = settle_state(ids, vs, fills, tick, market, (n - 1) as nat);
        let f = fills[n - 1];
        if exists|j: int| fill_target(ids, prev.0, f, j) {
            let j = choose|j: int| fill_target(ids, prev.0, f, j);
            (prev.0.update(j, after_fill(prev.0[j], f)), prev.1.push(trade_record(tick, prev.0[j], f, market)))
        } else {
            prev
        }
    }
}

/// How large the settlement of the fills can make a stock or an account:
/// for each fill, the payment and the quantity, in units of [`Dec::v`], and
/// room for rounding.
pub open spec fn settle_magnitude(fills: Seq<FinalFill>) -> int
    decreases fills.len(),
{
    if fills.len() == 0 {
        0
    } else {
        let f = fills.last();
        settle_magnitude(fills.drop_last()) + f.filled_quantity * abs_int(f.price.v()) + f.filled_quantity * unit() + 2 * unit()
    }
}

/// The list's identifier for a village name, as a `HashMap` lookup by name
/// gives it.
pub(crate) fn find_id<'a>(ids: &'a Vec<(String, VillageId)>, name: &String) -> (r: Option<&'a VillageId>)
    ensures
        r matches Some(vid) ==> id_for(ids@, name@) == Some(*vid),
        r is None ==> id_for(ids@, name@) is None,
{
    let mut k: usize = 0;
    while k < ids.len()
        invariant
            k <= ids@.len(),
            forall|i: int| 0 <= i < k ==> (#[trigger] ids@[i]).0@ != name@,
        decreases ids@.len() - k,
    {
        if ids[k].0 == *name {
            proof {
                assert(first_named(ids@, name@, k as int));
                let c = choose|c: int| first_named(ids@, name@, c);
                lemma_first_named_unique(ids@, name@, c, k as int);
            }
            return Some(&ids[k].1);
        }
        k = k + 1;
    }
    proof {
        if exists|c: int| first_named(ids@, name@, c) {
            let c = choose|c: int| first_named(ids@, name@, c);
            assert(ids@[c].0@ == name@);
        }
    }
    None
}

/// The first village that the fill belongs to, if any.
fn find_target(villages: &Vec<Village>, ids: &Vec<(String, VillageId)>, fill: &FinalFill) -> (r: Option<usize>)
    ensures
        r matches Some(j) ==> fill_target(ids@, villages@, *fill, j as int),
        r is None ==> !exists|j: int| fill_target(ids@, villages@, *fill, j),
{
    let mut j: usize = 0;
    while j < villages.len()
        invariant
            j <= villages@.len(),
            forall|i: int| 0 <= i < j ==> !fill_belongs(ids@, #[trigger] villages@[i], *fill),
        decreases villages@.len() - j,
    {
        let belongs = match find_id(ids, &villages[j].id_str) {
            Some(vid) => fill.participant_id.0 == vid.to_participant_id(),
            None => false,
        };
        if belongs {
            return Some(j);
        }
        j = j + 1;
    }
    proof {
        if exists|t: int| fill_target(ids@, villages@, *fill, t) {
            let t = choose|t: int| fill_target(ids@, villages@, *fill, t);
            assert(fill_belongs(ids@, villages@[t], *fill));
        }
    }
    None
}

proof fn lemma_settle_magnitude_step(fills: Seq<FinalFill>, i: int)
    requires
        0 <= i < fills.len(),
    ensures
        settle_magnitude(fills.take(i + 1)) == settle_magnitude(fills.take(i)) + fills[i].filled_quantity
            * abs_int(fills[i].price.v()) + fills[i].filled_quantity * unit() + 2 * unit(),
{
    assert(fills.take(i + 1).drop_last() =~= fills.take(i));
    assert(fills.take(i + 1).last() == fills[i]);
}

proof fn lemma_settle_magnitude_nonneg(fills: Seq<FinalFill>)
    ensures
        settle_magnitude(fills) >= 0,
    decreases fills.len(),
{
    lemma_unit();
    if fills.len() > 0 {
        lemma_settle_magnitude_nonneg(fills.drop_last());
        let f = fills.last();
        assert(f.filled_quantity * abs_int(f.price.v()) >= 0) by (nonlinear_arith)
            requires
                f.filled_quantity >= 0,
        ;
        assert(f.filled_quantity * unit() >= 0) by (nonlinear_arith)
            requires
                f.filled_quantity >= 0,
                unit() > 0,
        ;
    }
}

proof fn lemma_settle_magnitude_mono(fills: Seq<FinalFill>, i: int)
    requires
        0 <= i <= fills.len(),
    ensures
        settle_magnitude(fills.take(i)) <= settle_magnitude(fills),
        settle_magnitude(fills.take(i)) >= 0,
    decreases fills.len() - i,
{
    lemma_unit();
    lemma_settle_magnitude_nonneg(fills.take(i));
    if i < fills.len() {
        lemma_settle_magnitude_step(fills, i);
        lemma_settle_magnitude_mono(fills, i + 1);
        assert(fills[i].filled_quantity * abs_int(fills[i].price.v()) >= 0) by (nonlinear_arith)
            requires
                fills[i].filled_quantity >= 0,
        ;
        assert(fills[i].filled_quantity * unit() >= 0) by (nonlinear_arith)
            requires
                fills[i].filled_quantity >= 0,
                unit() > 0,
        ;
    } else {
        assert(fills.take(i) =~= fills);
        lemma_settle_magnitude_nonneg(fills);
    }
}

proof fn lemma_settle_magnitude_le(fills: Seq<FinalFill>, b: int)
    requires
        b >= 0,
        forall|k: int|
            0 <= k < fills.len() ==> (#[trigger] fills[k]).filled_quantity * abs_int(fills[k].price.v())
                + fills[k].filled_quantity * unit() + 2 * unit() <= b,
    ensures
        settle_magnitude(fills) <= fills.len() * b,
    decreases fills.len(),
{
    if fills.len() > 0 {
        let init = fills.drop_last();
        assert forall|k: int| 0 <= k < init.len() implies (#[trigger] init[k]).filled_quantity
            * abs_int(init[k].price.v()) + init[k].filled_quantity * unit() + 2 * unit() <= b by {
            assert(init[k] == fills[k]);
        }
        lemma_settle_magnitude_le(init, b);
        assert(fills.last() == fills[fills.len() - 1]);
        assert((fills.len() - 1) * b + b == fills.len() * b) by (nonlinear_arith);
    }
}

/// The bounds that [`settlement_check`] tests: stocks and accounts within
/// the day's range, and at most a million fills of at most a billion units at
/// prices of at most a trillion.
pub open spec fn settlement_checked(villages: Seq<Village>, fills: Seq<FinalFill>) -> bool {
    &&& stocks_within(villages, tame_bound())
    &&& fills.len() <= 1000000
    &&& forall|k: int|
        0 <= k < fills.len() ==> (#[trigger] fills[k]).price.wf() && fills[k].filled_quantity
            <= 1000000000 && abs_int(fills[k].price.v()) <= 1000000000000 * unit()
}

/// Tests the bounds of [`settlement_checked`], which suffice for settling
/// `fills` with `apply_trades`.
pub fn settlement_check(villages: &Vec<Village>, fills: &Vec<FinalFill>) -> (r: bool)
    ensures
        r == settlement_checked(villages@, fills@),
        r ==> {
            &&& stocks_within(villages@, tame_bound())
            &&& forall|k: int| 0 <= k < fills@.len() ==> (#[trigger] fills@[k]).price.wf()
            &&& tame_bound() + settle_magnitude(fills@) <= limit()
        },
{
    proof {
        lemma_unit();
    }
    let mut i: usize = 0;
    while i < villages.len()
        invariant
            i <= villages@.len(),
            forall|k: int|
                0 <= k < i ==> {
                    let v = #[trigger] villages@[k];
                    &&& v.money.wf()
                    &&& v.wood.wf()
                    &&& v.food.wf()
                    &&& abs_int(v.money.v()) <= tame_bound()
                    &&& abs_int(v.wood.v()) <= tame_bound()
                    &&& abs_int(v.food.v()) <= tame_bound()
                },
        decreases villages@.len() - i,
    {
        let v = &villages[i];
        if !(is_tame(&v.money) && is_tame(&v.wood) && is_tame(&v.food)) {
            proof {
                assert(villages@[i as int] == *v);
            }
            return false;
        }
        i = i + 1;
    }
    if fills.len() > 1000000 {
        return false;
    }
    let mut j: usize = 0;
    while j < fills.len()
        invariant
            j <= fills@.len(),
            fills@.len() <= 1000000,
            forall|k: int|
                0 <= k < j ==> (#[trigger] fills@[k]).price.wf() && fills@[k].filled_quantity
                    <= 1000000000 && abs_int(fills@[k].price.v()) <= 1000000000000 * unit(),
        decreases fills@.len() - j,
    {
        let f = &fills[j];
        if !f.price.is_wf() || f.filled_quantity > 1000000000 || !f.price.within_units(1000000000000) {
            proof {
                assert(fills@[j as int] == *f);
            }
            return false;
        }
        j = j + 1;
    }
    proof {
        let b = 1000000000000000000000 * unit() + 1000000000 * unit() + 2 * unit();
        assert forall|k: int| 0 <= k < fills@.len() implies (#[trigger] fills@[k]).filled_quantity
            * abs_int(fills@[k].price.v()) + fills@[k].filled_quantity * unit() + 2 * unit() <= b by {
            let q = fills@[k].filled_quantity as int;
            let pv = abs_int(fills@[k].price.v());
            assert(q * pv <= 1000000000 * (1000000000000 * unit())) by (nonlinear_arith)
                requires
                    0 <= q <= 1000000000,
                    0 <= pv <= 1000000000000 * unit(),
            ;
            assert(q * unit() <= 1000000000 * unit()) by (nonlinear_arith)
                requires
                    0 <= q <= 1000000000,
                    unit() > 0,
            ;
        }
        lemma_settle_magnitude_le(fills@, b);
        assert(fills@.len() * b <= 1000000 * b) by (nonlinear_arith)
            requires
                fills@.len() <= 1000000,
                b >= 0,
        ;
    }
    true
}

/// Every stock and account is well formed and within `bound`.
pub open spec fn stocks_within(vs: Seq<Village>, bound: int) -> bool {
    forall|k: int|
        0 <= k < vs.len() ==> {
            let v = #[trigger] vs[k];
            &&& v.money.wf()
            &&& v.wood.wf()
            &&& v.food.wf()
            &&& abs_int(v.money.v()) <= bound
            &&& abs_int(v.wood.v()) <= bound
            &&& abs_int(v.food.v()) <= bound
        }
}

/// Settles each fill with the first village it belongs to, in order: buyers
/// pay and gain the quantity, sellers are paid and give it up; each settled
/// fill is logged as a trade with the market. Fills that belong to no village
/// are passed over.
pub fn apply_trades(
    villages: &mut Vec<Village>,
    village_ids: &Vec<(String, VillageId)>,
    fills: &Vec<FinalFill>,
    logger: &mut EventLogger,
    tick: usize,
)
    requires
        stocks_within(old(villages)@, tame_bound()),
        forall|k: int| 0 <= k < fills@.len() ==> (#[trigger] fills@[k]).price.wf(),
        tame_bound() + settle_magnitude(fills@) <= limit(),
    ensures
        exists|market: String|
            market@ == "market"@ && {
                let s = #[trigger] settle_state(
                    village_ids@,
                    old(villages)@,
                    fills@,
                    tick,
                    market,
                    fills@.len(),
                );
                &&& final(villages)@ == s.0
                &&& appended(old(logger)@, final(logger)@, s.1)
            },
{
    let market = String::from_str("market");
    let ghost vs0 = villages@;
    let ghost log0 = logger@;
    proof {
        lemma_appended_none(log0);
        lemma_unit();
    }
    let mut i: usize = 0;
    while i < fills.len()
        invariant
            i <= fills@.len(),
            market@ == "market"@,
            forall|k: int| 0 <= k < fills@.len() ==> (#[trigger] fills@[k]).price.wf(),
            tame_bound() + settle_magnitude(fills@) <= limit(),
            unit() == 10000000000000000000000000000,
            ({
                let s = settle_state(village_ids@, vs0, fills@, tick, market, i as nat);
                &&& villages@ == s.0
                &&& appended(log0, logger@, s.1)
            }),
            stocks_within(villages@, tame_bound() + settle_magnitude(fills@.take(i as int))),
        decreases fills@.len() - i,
    {
        let fill = &fills[i];
        let ghost prev = settle_state(village_ids@, vs0, fills@, tick, market, i as nat);
        let ghost bound = tame_bound() + settle_magnitude(fills@.take(i as int));
        proof {
            lemma_settle_magnitude_step(fills@, i as int);
            lemma_settle_magnitude_mono(fills@, i as int + 1);
            lemma_settle_magnitude_mono(fills@, i as int);
            lemma_v_sign(fill.price);
        }
        match find_target(villages, village_ids, fill) {
            Some(j) => {
                let ghost log_before = logger@;
                let ghost before = villages@;
                let mut v = villages.remove(j);
                let q = Dec::from_u64(fill.filled_quantity);
                proof {
                    assert(v == before[j as int]);
                    lemma_abs_mul_le(q.v(), fill.price.v(), fill.filled_quantity * unit(), abs_int(fill.price.v()));
                    assert(fill.filled_quantity * unit() * abs_int(fill.price.v()) == (fill.filled_quantity * abs_int(fill.price.v())) * unit()) by (nonlinear_arith);
                    assert(fill.filled_quantity * abs_int(fill.price.v()) <= limit());
                    assert((fill.filled_quantity * abs_int(fill.price.v())) * unit() <= limit() * unit()) by (nonlinear_arith)
                        requires
                            fill.filled_quantity * abs_int(fill.price.v()) <= limit(),
                            unit() > 0,
                    ;
                }
                let value = dec_mul(q, fill.price);
                proof {
                    lemma_v_sign(value);
                    let vv = value.v();
                    let qp = q.v() * fill.price.v();
                    assert(abs_int(vv) <= fill.filled_quantity * abs_int(fill.price.v()) + unit())
                        by (nonlinear_arith)
                        requires
                            2 * abs_int(vv * unit() - qp) <= unit() * value.ulp(),
                            value.ulp() <= unit(),
                            abs_int(qp) == (fill.filled_quantity * abs_int(fill.price.v())) * unit(),
                            unit() > 0,
                    ;
                }
                let resource = match ResourceType::from_str(fill.resource_id.0.as_str()) {
                    Some(r) => r,
                    None => ResourceType::Wood,
                };
                match fill.order_type {
                    OrderType::Bid => {
                        v.money = dec_sub(v.money, value);
                        match resource {
                            ResourceType::Wood => {
                                v.wood = dec_add(v.wood, q);
                            },
                            ResourceType::Food => {
                                v.food = dec_add(v.food, q);
                            },
                        }
                        logger.log(
                            tick,
                            v.id_str.clone(),
                            EventType::TradeExecuted {
                                resource,
                                quantity: q,
                                price: fill.price,
                                counterparty: market.clone(),
                                side: TradeSide::Buy,
                            },
                        );
                    },
                    OrderType::Ask => {
                        v.money = dec_add(v.money, value);
                        match resource {
                            ResourceType::Wood => {
                                v.wood = dec_sub(v.wood, q);
                            },
                            ResourceType::Food => {
                                v.food = dec_sub(v.food, q);
                            },
                        }
                        logger.log(
                            tick,
                            v.id_str.clone(),
                            EventType::TradeExecuted {
                                resource,
                                quantity: q,
                                price: fill.price,
                                counterparty: market.clone(),
                                side: TradeSide::Sell,
                            },
                        );
                    },
                }
                proof {
                    lemma_v_sign(v.money);
                    lemma_v_sign(v.wood);
                    lemma_v_sign(v.food);
                    assert(v == after_fill(before[j as int], *fill));
                }
                villages.insert(j, v);
                proof {
                    let c = choose|c: int| fill_target(village_ids@, prev.0, *fill, c);
                    lemma_fill_target_unique(village_ids@, prev.0, *fill, c, j as int);
                    assert(villages@ =~= before.update(j as int, v));
                    let next = settle_state(village_ids@, vs0, fills@, tick, market, (i + 1) as nat);
                    assert(next.0 == villages@);
                    lemma_appended_trans(log0, log_before, logger@, prev.1, seq![trade_record(tick, before[j as int], *fill, market)]);
                    assert(next.1 == prev.1 + seq![trade_record(tick, before[j as int], *fill, market)]);
                    let nb = tame_bound() + settle_magnitude(fills@.take(i + 1));
                    assert forall|k: int| 0 <= k < villages@.len() implies {
                        let w = #[trigger] villages@[k];
                        &&& w.money.wf()
                        &&& w.wood.wf()
                        &&& w.food.wf()
                        &&& abs_int(w.money.v()) <= nb
                        &&& abs_int(w.wood.v()) <= nb
                        &&& abs_int(w.food.v()) <= nb
                    } by {
                        if k != j {
                            assert(villages@[k] == before[k]);
                        }
                    }
                }
            },
            None => {
                proof {
                    let next = settle_state(village_ids@, vs0, fills@, tick, market, (i + 1) as nat);
                    assert(next == prev);
                    let nb = tame_bound() + settle_magnitude(fills@.take(i + 1));
                    assert forall|k: int| 0 <= k < villages@.len() implies {
                        let w = #[trigger] villages@[k];
                        &&& abs_int(w.money.v()) <= nb
                        &&& abs_int(w.wood.v()) <= nb
                        &&& abs_int(w.food.v()) <= nb
                    } by {
                    }
                }
            },
        }
        i = i + 1;
    }
}

proof fn lemma_fill_target_unique(
    ids: Seq<(String, VillageId)>,
    vs: Seq<Village>,
    f: FinalFill,
    a: int,
    b: int,
)
    requires
        fill_target(ids, vs, f, a),
        fill_target(ids, vs, f, b),
    ensures
        a == b,
{
    if a < b {
        assert(!fill_belongs(ids, vs[a], f));
    }
    if b < a {
        assert(!fill_belongs(ids, vs[b], f));
    }
}

/// `s` describes the village as the strategies see it (its lists of day
/// counts aside).
pub open spec fn describes(s: VillageState, v: Village) -> bool {
    &&& s.id@ == v.id_str@
    &&& s.workers == v.workers@.len()
    &&& s.wood == v.wood
    &&& s.food == v.food
    &&& s.money == v.money
    &&& s.houses == v.houses@.len()
    &&& s.house_capacity == v.houses@.len() * 5
    &&& s.wood_slots == v.wood_slots
    &&& s.food_slots == v.food_slots
    &&& s.worker_days == worker_days_dec(v.workers@)
    &&& s.construction_progress == v.construction_progress
}

/// The orders a decision places, in the order wood bid, wood ask, food bid,
/// food ask.
pub open spec fn requests_of(d: StrategyDecision) -> Seq<OrderRequest> {
    let one = |o: Option<(Dec, u32)>, resource: ResourceType, is_buy: bool|
        match o {
            Some((price, quantity)) => seq![OrderRequest { resource, is_buy, quantity, price }],
            None => Seq::<OrderRequest>::empty(),
        };
    one(d.wood_bid, ResourceType::Wood, true) + one(d.wood_ask, ResourceType::Wood, false) + one(
        d.food_bid,
        ResourceType::Food,
        true,
    ) + one(d.food_ask, ResourceType::Food, false)
}

/// What the strategies see of a village.
pub fn village_state(village: &Village) -> (r: VillageState)
    requires
        village.houses@.len() * 5 <= usize::MAX,
    ensures
        describes(r, *village),
        r.days_without_food@.len() == village.workers@.len(),
        r.days_without_shelter@.len() == village.workers@.len(),
        forall|k: int|
            0 <= k < village.workers@.len() ==> r.days_without_food@[k]
                == (#[trigger] village.workers@[k]).days_without_food && r.days_without_shelter@[k]
                == village.workers@[k].days_without_shelter,
{
    let mut days_without_food: Vec<u32> = Vec::new();
    let mut days_without_shelter: Vec<u32> = Vec::new();
    let mut i: usize = 0;
    while i < village.workers.len()
        invariant
            i <= village.workers@.len(),
            days_without_food@.len() == i,
            days_without_shelter@.len() == i,
            forall|k: int|
                0 <= k < i ==> days_without_food@[k] == (#[trigger] village.workers@[k]).days_without_food
                    && days_without_shelter@[k] == village.workers@[k].days_without_shelter,
        decreases village.workers@.len() - i,
    {
        days_without_food.push(village.workers[i].days_without_food);
        days_without_shelter.push(village.workers[i].days_without_shelter);
        i = i + 1;
    }
    VillageState {
        id: village.id_str.clone(),
        workers: village.workers.len(),
        wood: village.wood,
        food: village.food,
        money: village.money,
        houses: village.houses.len(),
        house_capacity: village.houses.len() * 5,
        wood_slots: village.wood_slots,
        food_slots: village.food_slots,
        worker_days: village.worker_days(),
        days_without_food,
        days_without_shelter,
        construction_progress: village.construction_progress,
    }
}

/// A village's strategy, asked for an allocation and orders each day.
pub struct StrategyAdapter {
    pub inner: StrategyKind,
}

impl StrategyAdapter {
    pub fn new(strategy: StrategyKind) -> (r: Self)
        ensures
            r.inner == strategy,
    {
        StrategyAdapter { inner: strategy }
    }

    /// Asks the strategy what to do with the village and turns its decision
    /// into an allocation and order requests.
    pub fn get_allocation_and_orders(&self, village: &Village, market_state: &MarketState) -> (r: (
        Allocation,
        Vec<OrderRequest>,
    ))
        requires
            village.houses@.len() * 5 <= usize::MAX,
            forall|s: VillageState| describes(s, *village) ==> #[trigger] self.inner.accepts_spec(
                s,
                *market_state,
            ),
        ensures
            forall|s: VillageState|
                describes(s, *village) ==> {
                    let d = #[trigger] self.inner.decision(s, *market_state);
                    &&& r.0 == (Allocation {
                        wood: d.allocation.wood,
                        food: d.allocation.food,
                        house_construction: d.allocation.construction,
                    })
                    &&& r.1@ == requests_of(d)
                },
    {
        let village_state = village_state(village);
        let decision = self.inner.decide_allocation_and_orders(&village_state, market_state);
        let allocation = Allocation {
            wood: decision.allocation.wood,
            food: decision.allocation.food,
            house_construction: decision.allocation.construction,
        };
        let mut orders: Vec<OrderRequest> = Vec::new();
        if let Some((price, quantity)) = decision.wood_bid {
            orders.push(OrderRequest { resource: ResourceType::Wood, is_buy: true, quantity, price });
        }
        if let Some((price, quantity)) = decision.wood_ask {
            orders.push(OrderRequest { resource: ResourceType::Wood, is_buy: false, quantity, price });
        }
        if let Some((price, quantity)) = decision.food_bid {
            orders.push(OrderRequest { resource: ResourceType::Food, is_buy: true, quantity, price });
        }
        if let Some((price, quantity)) = decision.food_ask {
            orders.push(OrderRequest { resource: ResourceType::Food, is_buy: false, quantity, price });
        }
        proof {
            assert forall|s: VillageState| describes(s, *village) implies {
                let d = #[trigger] self.inner.decision(s, *market_state);
                &&& allocation == (Allocation {
                    wood: d.allocation.wood,
                    food: d.allocation.food,
                    house_construction: d.allocation.construction,
                })
                &&& orders@ == requests_of(d)
            } by {
                assert(self.inner.decision(s, *market_state) == self.inner.decision(
                    village_state,
                    *market_state,
                ));
                assert(orders@ =~= requests_of(decision));
            }
        }
        (allocation, orders)
    }

    /// What [`StrategyAdapter::get_allocation_and_orders`] answers, where the
    /// strategy's arithmetic is sure to stay in range
    /// ([`StrategyKind::guarded`]); `None` where it is not.
    pub fn checked_allocation_and_orders(&self, village: &Village, market_state: &MarketState) -> (r:
        Option<(Allocation, Vec<OrderRequest>)>)
        ensures
            village.houses@.len() * 5 > usize::MAX ==> r is None,
            village.houses@.len() * 5 <= usize::MAX ==> forall|s: VillageState|
                describes(s, *village) ==> (r is Some <==> #[trigger] self.inner.guarded(s, *market_state)),
            r matches Some(p) ==> forall|s: VillageState|
                describes(s, *village) ==> {
                    let d = #[trigger] self.inner.decision(s, *market_state);
                    &&& p.0 == (Allocation {
                        wood: d.allocation.wood,
                        food: d.allocation.food,
                        house_construction: d.allocation.construction,
                    })
                    &&& p.1@ == requests_of(d)
                },
    {
        if village.houses.len() > usize::MAX / 5 {
            return None;
        }
        let vs = village_state(village);
        let ok = self.inner.accepts_check(&vs, market_state);
        proof {
            assert forall|s: VillageState| describes(s, *village) implies #[trigger] self.inner.guarded(
                s,
                *market_state,
            ) == ok && (ok ==> self.inner.accepts_spec(s, *market_state)) by {
                lemma_same_figures(self.inner, s, vs, *village, *market_state);
            }
        }
        if !ok {
            return None;
        }
        Some(self.get_allocation_and_orders(village, market_state))
    }
}

/// Two states that describe the same village are guarded, and accepted, by
/// a strategy alike.
proof fn lemma_same_figures(k: StrategyKind, s1: VillageState, s2: VillageState, v: Village, m: MarketState)
    requires
        describes(s1, v),
        describes(s2, v),
    ensures
        k.guarded(s1, m) == k.guarded(s2, m),
        k.accepts_spec(s1, m) == k.accepts_spec(s2, m),
{
}


/// `n` workers numbered from zero, each with every day count at zero.
pub fn new_workers(n: usize) -> (r: Vec<Worker>)
    ensures
        r@ == newborns(0, n as nat),
{
    let mut workers: Vec<Worker> = Vec::new();
    let mut i: usize = 0;
    while i < n
        invariant
            i <= n,
            workers@ == newborns(0, i as nat),
        decreases n - i,
    {
        workers.push(
            Worker {
                id: i,
                days_without_food: 0,
                days_without_shelter: 0,
                days_with_both: 0,
                spawn_eligible: false,
            },
        );
        proof {
            assert(workers@ =~= newborns(0, (i + 1) as nat));
        }
        i = i + 1;
    }
    workers
}

/// `n` houses numbered from zero, at maintenance level 0.0.
pub fn fresh_houses(n: usize) -> (r: Vec<House>)
    ensures
        r@ == new_houses(0, n as nat),
{
    let mut houses: Vec<House> = Vec::new();
    let mut i: usize = 0;
    while i < n
        invariant
            i <= n,
            houses@ == new_houses(0, i as nat),
        decreases n - i,
    {
        houses.push(House { id: i, maintenance_level: Dec::new(0, 1) });
        proof {
            assert(houses@ =~= new_houses(0, (i + 1) as nat));
        }
        i = i + 1;
    }
    houses
}

/// A village named `village_<id>` with 100.0 of wood, food and money.
pub fn create_village(
    id: usize,
    wood_slots: (u32, u32),
    food_slots: (u32, u32),
    workers: usize,
    houses: usize,
) -> (r: Village)
    ensures
        r.id == id,
        r.id_str@ == "village_"@ + digits(id as nat),
        r.wood == (Dec { mantissa: 1000, scale: 1 }),
        r.food == (Dec { mantissa: 1000, scale: 1 }),
        r.money == (Dec { mantissa: 1000, scale: 1 }),
        r.wood_slots == wood_slots,
        r.food_slots == food_slots,
        r.workers@ == newborns(0, workers as nat),
        r.houses@ == new_houses(0, houses as nat),
        r.construction_progress == (Dec { mantissa: 0, scale: 1 }),
        r.next_worker_id == workers,
        r.next_house_id == houses,
        r.rng is None,
{
    let digits_text = usize_text(id);
    let name = String::from_str("village_").concat(digits_text.as_str());
    Village {
        id,
        id_str: name,
        wood: Dec::new(1000, 1),
        food: Dec::new(1000, 1),
        money: Dec::new(1000, 1),
        wood_slots,
        food_slots,
        workers: new_workers(workers),
        houses: fresh_houses(houses),
        construction_progress: Dec::new(0, 1),
        next_worker_id: workers,
        next_house_id: houses,
        rng: None,
    }
}

/// A village as a scenario configures it; slot counts are cut to 32 bits.
pub fn village_from_config(id: usize, config: &VillageConfig) -> (r: Village)
    ensures
        r.id == id,
        r.id_str@ == config.id@,
        r.wood == config.initial_wood,
        r.food == config.initial_food,
        r.money == config.initial_money,
        r.wood_slots == ((config.wood_slots.0 as u32, config.wood_slots.1 as u32)),
        r.food_slots == ((config.food_slots.0 as u32, config.food_slots.1 as u32)),
        r.workers@ == newborns(0, config.initial_workers as nat),
        r.houses@ == new_houses(0, config.initial_houses as nat),
        r.construction_progress == (Dec { mantissa: 0, scale: 1 }),
        r.next_worker_id == config.initial_workers,
        r.next_house_id == config.initial_houses,
        r.rng is None,
{
    #[verifier::truncate]
    let wood_first = config.wood_slots.0 as u32;
    #[verifier::truncate]
    let wood_second = config.wood_slots.1 as u32;
    #[verifier::truncate]
    let food_first = config.food_slots.0 as u32;
    #[verifier::truncate]
    let food_second = config.food_slots.1 as u32;
    Village {
        id,
        id_str: config.id.clone(),
        wood: config.initial_wood,
        food: config.initial_food,
        money: config.initial_money,
        wood_slots: (wood_first, wood_second),
        food_slots: (food_first, food_second),
        workers: new_workers(config.initial_workers),
        houses: fresh_houses(config.initial_houses),
        construction_progress: Dec::new(0, 1),
        next_worker_id: config.initial_workers,
        next_house_id: config.initial_houses,
        rng: None,
    }
}

} // verus!
