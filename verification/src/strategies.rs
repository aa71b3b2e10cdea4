//! How villages decide: each strategy splits the day's worker-days between
//! food, wood and construction, and chooses what to bid for and offer in the
//! market.
//!
//! - **Default**: fixed shares (70% wood, 20% food, 10% construction), no trading
//! - **Survival**: meets immediate needs first and keeps stocks in reserve
//! - **Growth**: builds houses so that the population can grow
//! - **Trading**: produces what is cheapest to produce and trades for the rest
//! - **Balanced**: weighs each need by how urgent it is
//! - **Greedy**: produces whatever is worth most right now
use crate::decimal::{
    abs_int, dec_add, dec_div, dec_mul, dec_sub, dec_to_u32, decimal_difference, decimal_product,
    decimal_quotient, decimal_sum, dabs, dmin, lemma_abs_mul_le, lemma_product_size, lemma_quotient_size,
    lemma_exact_difference, lemma_exact_sum, lemma_rounded_size,
    lemma_unit, lemma_v_sign, limit, pow10,
    unit, Dec, MAX_MANTISSA,
};
use crate::scenario::StrategyConfig;
use crate::simulation::{whole, whole_u32};
use vstd::prelude::*;

verus! {

/// How many days `amount` lasts at `per_day` a day: the whole part of the
/// quotient (zero where it has none), or 999 when nothing is used.
pub open spec fn days_of_supply(amount: Dec, per_day: Dec) -> u32 {
    if per_day.v() > 0 {
        whole_u32(decimal_quotient(amount, per_day))
    } else {
        999
    }
}

/// The market price, else the default, times the multiplier.
pub open spec fn quoted(market: Option<Dec>, default: Dec, multiplier: Dec) -> Dec {
    decimal_product(
        match market {
            Some(p) => p,
            None => default,
        },
        multiplier,
    )
}

/// `5.0` for wood, `1.0` for food.
pub open spec fn default_price(is_wood: bool) -> Dec {
    if is_wood {
        Dec { mantissa: 50, scale: 1 }
    } else {
        Dec { mantissa: 10, scale: 1 }
    }
}

/// The quantity at the price costs no more than the money outside the reserve.
pub open spec fn affordable(money: Dec, price: Dec, quantity: u32, reserve: Dec) -> bool {
    decimal_product(price, whole(quantity as int)).v() <= decimal_product(
        money,
        decimal_difference(Dec { mantissa: 1, scale: 0 }, reserve),
    ).v()
}

/// A decimal with magnitude at most `10^6`.
pub open spec fn modest(d: Dec) -> bool {
    d.wf() && abs_int(d.v()) <= 1000000 * unit()
}

/// A decimal with magnitude at most `10^14`.
pub open spec fn sizable(d: Dec) -> bool {
    d.wf() && abs_int(d.v()) <= 100000000000000 * unit()
}

/// A price with magnitude at most `10^12`.
pub open spec fn price_sized(d: Dec) -> bool {
    d.wf() && abs_int(d.v()) <= 1000000000000 * unit()
}

/// The number of days `amount` lasts at `consumption_per_day`.
fn calculate_resource_days(amount: Dec, consumption_per_day: Dec) -> (r: u32)
    requires
        amount.wf(),
        consumption_per_day.wf(),
        consumption_per_day.v() > 0 ==> abs_int(amount.v()) <= (MAX_MANTISSA - 1) * consumption_per_day.v(),
    ensures
        r == days_of_supply(amount, consumption_per_day),
{
    if consumption_per_day.gt(&Dec::new(0, 0)) {
        let q = dec_div(amount, consumption_per_day);
        match dec_to_u32(&q) {
            Some(n) => n,
            None => 0,
        }
    } else {
        999
    }
}

/// The default price for a resource.
fn get_default_price(is_wood: bool) -> (r: Dec)
    ensures
        r == default_price(is_wood),
        r.wf(),
        0 < r.v() <= 5 * unit(),
{
    proof {
        lemma_unit();
    }
    if is_wood {
        Dec::new(50, 1)
    } else {
        Dec::new(10, 1)
    }
}

/// The market price, else the default, times the multiplier.
fn calculate_price(market_price: Option<Dec>, is_wood: bool, multiplier: Dec) -> (r: Dec)
    requires
        match market_price {
            Some(p) => price_sized(p),
            None => true,
        },
        modest(multiplier),
    ensures
        r == quoted(market_price, default_price(is_wood), multiplier),
        r.wf(),
        abs_int(r.v()) <= 1000000000000000000 * unit() + unit(),
{
    proof {
        lemma_unit();
    }
    let base = match market_price {
        Some(p) => p,
        None => get_default_price(is_wood),
    };
    proof {
        lemma_abs_mul_le(base.v(), multiplier.v(), 1000000000000 * unit(), 1000000 * unit());
        assert((1000000000000 * unit()) * (1000000 * unit()) <= limit() * unit())
            by (nonlinear_arith)
            requires
                unit() == 10000000000000000000000000000,
                limit() == (MAX_MANTISSA - 1) * unit(),
        ;
    }
    let r = dec_mul(base, multiplier);
    proof {
        lemma_v_sign(r);
        let rv = r.v();
        let p = base.v() * multiplier.v();
        assert(abs_int(rv) <= 1000000000000000000 * unit() + unit()) by (nonlinear_arith)
            requires
                2 * abs_int(rv * unit() - p) <= unit() * r.ulp(),
                r.ulp() <= unit(),
                abs_int(p) <= (1000000000000 * unit()) * (1000000 * unit()),
                unit() == 10000000000000000000000000000,
        ;
    }
    r
}

/// Whether the quantity at the price fits within the money left after the
/// reserve.
fn can_afford_quantity(money: Dec, price: Dec, quantity: u32, reserve_fraction: Dec) -> (r: bool)
    requires
        sizable(money),
        price.wf(),
        abs_int(price.v()) <= 3000000000000000000 * unit(),
        modest(reserve_fraction),
    ensures
        r == affordable(money, price, quantity, reserve_fraction),
        quantity == 0 && money.v() > unit() && reserve_fraction.scale <= 1 && 0
            <= reserve_fraction.v() <= unit() / 2 ==> r,
{
    proof {
        lemma_unit();
        lemma_abs_mul_le(
            price.v(),
            quantity * unit(),
            3000000000000000000 * unit(),
            4294967295 * unit(),
        );
        assert((3000000000000000000 * unit()) * (4294967295 * unit()) <= limit() * unit())
            by (nonlinear_arith)
            requires
                unit() == 10000000000000000000000000000,
                limit() == (MAX_MANTISSA - 1) * unit(),
        ;
    }
    let total_cost = dec_mul(price, Dec::from_u32(quantity));
    let one = Dec::new(1, 0);
    proof {
        if reserve_fraction.scale <= 1 && 0 <= reserve_fraction.v() <= unit() / 2 {
            lemma_exact_difference(one, reserve_fraction, 1);
        }
    }
    let keep = dec_sub(one, reserve_fraction);
    proof {
        lemma_v_sign(keep);
        lemma_abs_mul_le(money.v(), keep.v(), 100000000000000 * unit(), 2000000 * unit());
        assert((100000000000000 * unit()) * (2000000 * unit()) <= limit() * unit())
            by (nonlinear_arith)
            requires
                unit() == 10000000000000000000000000000,
                limit() == (MAX_MANTISSA - 1) * unit(),
        ;
    }
    let available_money = dec_mul(money, keep);
    proof {
        if quantity == 0 && money.v() > unit() && reserve_fraction.scale <= 1 && 0
            <= reserve_fraction.v() <= unit() / 2 {
            assert(price.mantissa * 0 == 0);
            assert(price.v() * 0 == 0);
            assert(total_cost.v() * unit() == 0);
            assert(total_cost.v() == 0) by (nonlinear_arith)
                requires
                    total_cost.v() * unit() == 0,
                    unit() > 0,
            ;
            lemma_v_sign(available_money);
            assert(keep.v() == unit() - reserve_fraction.v());
            let av = available_money.v();
            let mk = money.v() * keep.v();
            assert(mk > unit() * (unit() / 2)) by (nonlinear_arith)
                requires
                    mk == money.v() * keep.v(),
                    money.v() > unit(),
                    keep.v() >= unit() / 2,
                    unit() == 10000000000000000000000000000,
            ;
            assert(av > 0) by (nonlinear_arith)
                requires
                    2 * abs_int(av * unit() - money.v() * keep.v()) <= unit() * available_money.ulp(),
                    mk == money.v() * keep.v(),
                    available_money.ulp() <= unit(),
                    mk > unit() * (unit() / 2),
                    unit() > 0,
            ;
        }
    }
    total_cost.le(&available_money)
}

/// What a village knows of itself when it decides.
#[derive(Debug)]
pub struct VillageState {
    pub id: String,
    pub workers: usize,
    pub wood: Dec,
    pub food: Dec,
    pub money: Dec,
    pub houses: usize,
    pub house_capacity: usize,
    pub wood_slots: (u32, u32),
    pub food_slots: (u32, u32),
    pub worker_days: Dec,
    pub days_without_food: Vec<u32>,
    pub days_without_shelter: Vec<u32>,
    pub construction_progress: Dec,
}

/// The last clearing prices, where there were any.
#[derive(Clone, Copy, Debug)]
pub struct MarketState {
    pub last_wood_price: Option<Dec>,
    pub last_food_price: Option<Dec>,
}

/// Worker-days for each task.
#[derive(Clone, Copy, Debug)]
pub struct WorkerAllocation {
    pub wood: Dec,
    pub food: Dec,
    pub construction: Dec,
}

/// A strategy's choice: the allocation, and each order as (price, quantity).
#[derive(Clone, Copy, Debug)]
pub struct StrategyDecision {
    pub allocation: WorkerAllocation,
    pub wood_bid: Option<(Dec, u32)>,
    pub wood_ask: Option<(Dec, u32)>,
    pub food_bid: Option<(Dec, u32)>,
    pub food_ask: Option<(Dec, u32)>,
}

/// Stocks, money and worker-days small enough for a strategy's arithmetic,
/// and last prices no larger than `10^12`.
pub open spec fn state_ok(v: VillageState, m: MarketState) -> bool {
    &&& sizable(v.wood)
    &&& sizable(v.food)
    &&& sizable(v.money)
    &&& sizable(v.worker_days)
    &&& v.workers <= 1000000000
    &&& v.houses <= 1000000000
    &&& v.house_capacity <= 1000000000
    &&& match m.last_wood_price {
        Some(p) => price_sized(p),
        None => true,
    }
    &&& match m.last_food_price {
        Some(p) => price_sized(p),
        None => true,
    }
}

/// A village's decision-making.
pub trait Strategy {
    /// The inputs on which the strategy's arithmetic stays in range.
    spec fn accepts(&self, village: VillageState, market: MarketState) -> bool;

    /// Splits the worker-days and chooses the orders.
    fn decide_allocation_and_orders(&self, village: &VillageState, market: &MarketState) -> (r:
        StrategyDecision)
        requires
            self.accepts(*village, *market),
    ;

    /// The strategy's name.
    fn name(&self) -> &str;
}

/// No orders.
pub open spec fn no_orders(a: WorkerAllocation) -> StrategyDecision {
    StrategyDecision { allocation: a, wood_bid: None, wood_ask: None, food_bid: None, food_ask: None }
}

/// 70% of the worker-days on wood, 20% on food, 10% on construction.
pub open spec fn fixed_shares(worker_days: Dec) -> WorkerAllocation {
    WorkerAllocation {
        wood: decimal_product(worker_days, Dec { mantissa: 7, scale: 1 }),
        food: decimal_product(worker_days, Dec { mantissa: 2, scale: 1 }),
        construction: decimal_product(worker_days, Dec { mantissa: 1, scale: 1 }),
    }
}

/// Fixed shares and no trading.
pub struct DefaultStrategy;

impl Strategy for DefaultStrategy {
    open spec fn accepts(&self, village: VillageState, market: MarketState) -> bool {
        state_ok(village, market)
    }

    fn decide_allocation_and_orders(&self, village: &VillageState, _market: &MarketState) -> (r:
        StrategyDecision)
        ensures
            r == no_orders(fixed_shares(village.worker_days)),
    {
        proof {
            lemma_unit();
        }
        let allocation = WorkerAllocation {
            wood: mul_sized(village.worker_days, Dec::new(7, 1)),
            food: mul_sized(village.worker_days, Dec::new(2, 1)),
            construction: mul_sized(village.worker_days, Dec::new(1, 1)),
        };
        StrategyDecision { allocation, wood_bid: None, wood_ask: None, food_bid: None, food_ask: None }
    }

    fn name(&self) -> (r: &str)
        ensures
            r@ == "Default"@,
    {
        "Default"
    }
}

/// The product of a sizable value and a modest one.
fn mul_sized(a: Dec, b: Dec) -> (r: Dec)
    requires
        sizable(a),
        modest(b),
    ensures
        r == decimal_product(a, b),
        r.wf(),
        abs_int(r.v()) * unit() <= abs_int(a.v() * b.v()) + unit() * unit(),
        abs_int(r.v()) <= 100000000000000000000 * unit() + unit(),
{
    proof {
        lemma_unit();
        lemma_abs_mul_le(a.v(), b.v(), 100000000000000 * unit(), 1000000 * unit());
        assert((100000000000000 * unit()) * (1000000 * unit()) <= limit() * unit())
            by (nonlinear_arith)
            requires
                unit() == 10000000000000000000000000000,
                limit() == (MAX_MANTISSA - 1) * unit(),
        ;
    }
    let r = dec_mul(a, b);
    proof {
        lemma_product_size(a, b, r);
        assert(abs_int(r.v()) <= 100000000000000000000 * unit() + unit()) by (nonlinear_arith)
            requires
                abs_int(r.v()) * unit() <= abs_int(a.v() * b.v()) + unit() * unit(),
                abs_int(a.v() * b.v()) <= (100000000000000 * unit()) * (1000000 * unit()),
                unit() == 10000000000000000000000000000,
        ;
    }
    r
}

/// `to_u32` of a decimal, zero where it gives none.
fn whole_or_zero(d: &Dec) -> (r: u32)
    requires
        d.wf(),
    ensures
        r == whole_u32(*d),
{
    match dec_to_u32(d) {
        Some(n) => n,
        None => 0,
    }
}

/// `Decimal::from` of a count.
fn count_dec(n: usize) -> (r: Dec)
    ensures
        r == whole(n as int),
        r.wf(),
        r.v() == n * unit(),
{
    proof {
        lemma_unit();
    }
    Dec::from_usize(n)
}

/// Everything to the resource worth more per worker-day at the last prices
/// (food yields 2.0 a day, wood 0.1); nothing to construction.
pub open spec fn greedy_allocation(v: VillageState, m: MarketState) -> WorkerAllocation {
    let food_value = decimal_product(Dec { mantissa: 20, scale: 1 }, match m.last_food_price {
        Some(p) => p,
        None => Dec { mantissa: 10, scale: 1 },
    });
    let wood_value = decimal_product(Dec { mantissa: 1, scale: 1 }, match m.last_wood_price {
        Some(p) => p,
        None => Dec { mantissa: 50, scale: 1 },
    });
    if food_value.v() > wood_value.v() {
        WorkerAllocation {
            wood: Dec { mantissa: 0, scale: 0 },
            food: v.worker_days,
            construction: Dec { mantissa: 0, scale: 0 },
        }
    } else {
        WorkerAllocation {
            wood: v.worker_days,
            food: Dec { mantissa: 0, scale: 0 },
            construction: Dec { mantissa: 0, scale: 0 },
        }
    }
}

/// The smaller of two counts.
pub open spec fn min_u32(a: int, b: int) -> u32 {
    (if a < b {
        a
    } else {
        b
    }) as u32
}

/// Greedy's orders: buy food at 1.5 times the price, five days' worth up to
/// 50, when short of a day's food; buy 10 wood at 1.5 times the price when
/// out of wood with houses to keep; sell food beyond a day's worth (up to
/// 100) once there is more than two days' worth, and wood beyond 1 (up to 50)
/// once there is more than 2, at 0.8 times the price.
pub open spec fn greedy_decision(v: VillageState, m: MarketState) -> StrategyDecision {
    let ten = Dec { mantissa: 10, scale: 0 };
    let food_bid = if v.food.v() < v.workers * unit() && v.money.v() > ten.v() {
        Some(
            (
                quoted(m.last_food_price, default_price(false), Dec { mantissa: 15, scale: 1 }),
                min_u32(((v.workers as u32) * 5) as int, 50),
            ),
        )
    } else {
        None
    };
    let wood_bid = if v.wood.v() < unit() && v.houses > 0 && v.money.v() > ten.v() {
        Some((quoted(m.last_wood_price, default_price(true), Dec { mantissa: 15, scale: 1 }), 10u32))
    } else {
        None
    };
    let food_q = min_u32(
        whole_u32(decimal_difference(v.food, whole(v.workers as int))) as int,
        100,
    );
    let food_ask = if v.food.v() > v.workers * 2 * unit() && food_q > 0 {
        Some((quoted(m.last_food_price, default_price(false), Dec { mantissa: 8, scale: 1 }), food_q))
    } else {
        None
    };
    let wood_q = min_u32(
        whole_u32(decimal_difference(v.wood, Dec { mantissa: 1, scale: 0 })) as int,
        50,
    );
    let wood_ask = if v.wood.v() > 2 * unit() && wood_q > 0 {
        Some((quoted(m.last_wood_price, default_price(true), Dec { mantissa: 8, scale: 1 }), wood_q))
    } else {
        None
    };
    StrategyDecision { allocation: greedy_allocation(v, m), wood_bid, wood_ask, food_bid, food_ask }
}

/// Produces whatever is worth most right now and never builds; buys only in
/// an emergency and sells every surplus.
pub struct GreedyStrategy;

impl Strategy for GreedyStrategy {
    open spec fn accepts(&self, village: VillageState, market: MarketState) -> bool {
        &&& state_ok(village, market)
        &&& village.food.v() < village.workers * unit() && village.money.v() > 10 * unit() ==> (
        village.workers as u32) * 5 <= u32::MAX
    }

    fn decide_allocation_and_orders(&self, village: &VillageState, market: &MarketState) -> (r:
        StrategyDecision)
        ensures
            r == greedy_decision(*village, *market),
    {
        proof {
            lemma_unit();
        }
        let worker_days = village.worker_days;
        let food_price = match market.last_food_price {
            Some(p) => p,
            None => Dec::new(10, 1),
        };
        let wood_price = match market.last_wood_price {
            Some(p) => p,
            None => Dec::new(50, 1),
        };
        let food_value = mul_sized_flip(Dec::new(20, 1), food_price);
        let wood_value = mul_sized_flip(Dec::new(1, 1), wood_price);
        let allocation = if food_value.gt(&wood_value) {
            WorkerAllocation { wood: Dec::new(0, 0), food: worker_days, construction: Dec::new(0, 0) }
        } else {
            WorkerAllocation { wood: worker_days, food: Dec::new(0, 0), construction: Dec::new(0, 0) }
        };
        let ten = Dec::new(10, 0);
        let workers = count_dec(village.workers);
        let food_bid = if village.food.lt(&workers) && village.money.gt(&ten) {
            let quantity = min_of(village.workers as u32 * 5, 50);
            let price = calculate_price(market.last_food_price, false, Dec::new(15, 1));
            Some((price, quantity))
        } else {
            None
        };
        let wood_bid = if village.wood.lt(&Dec::new(1, 0)) && village.houses > 0 && village.money.gt(&ten) {
            let price = calculate_price(market.last_wood_price, true, Dec::new(15, 1));
            Some((price, 10u32))
        } else {
            None
        };
        let two_days = count_dec(village.workers * 2);
        let food_ask = if village.food.gt(&two_days) {
            let surplus = dec_sub(village.food, workers);
            let quantity = min_of(whole_or_zero(&surplus), 100);
            if quantity > 0 {
                let price = calculate_price(market.last_food_price, false, Dec::new(8, 1));
                Some((price, quantity))
            } else {
                None
            }
        } else {
            None
        };
        let wood_ask = if village.wood.gt(&Dec::new(2, 0)) {
            let surplus = dec_sub(village.wood, Dec::new(1, 0));
            let quantity = min_of(whole_or_zero(&surplus), 50);
            if quantity > 0 {
                let price = calculate_price(market.last_wood_price, true, Dec::new(8, 1));
                Some((price, quantity))
            } else {
                None
            }
        } else {
            None
        };
        StrategyDecision { allocation, wood_bid, wood_ask, food_bid, food_ask }
    }

    fn name(&self) -> (r: &str)
        ensures
            r@ == "Greedy"@,
    {
        "Greedy"
    }
}

/// The smaller of two counts.
fn min_of(a: u32, b: u32) -> (r: u32)
    ensures
        r == min_u32(a as int, b as int),
{
    if a < b {
        a
    } else {
        b
    }
}

/// The product of a modest value and a price.
fn mul_sized_flip(a: Dec, b: Dec) -> (r: Dec)
    requires
        modest(a),
        sizable(b),
    ensures
        r == decimal_product(a, b),
        r.wf(),
{
    proof {
        lemma_unit();
        lemma_abs_mul_le(a.v(), b.v(), 1000000 * unit(), 100000000000000 * unit());
        assert((1000000 * unit()) * (100000000000000 * unit()) <= limit() * unit())
            by (nonlinear_arith)
            requires
                unit() == 10000000000000000000000000000,
                limit() == (MAX_MANTISSA - 1) * unit(),
        ;
    }
    dec_mul(a, b)
}

/// The output share of the next worker: full on a first-rate slot, 0.75 on
/// a second-rate one, none beyond.
pub open spec fn marginal_productivity(current_workers: u32, slots: (u32, u32)) -> Dec {
    if current_workers < slots.0 {
        Dec { mantissa: 10, scale: 1 }
    } else if current_workers < slots.0 + slots.1 {
        Dec { mantissa: 75, scale: 2 }
    } else {
        Dec { mantissa: 0, scale: 1 }
    }
}

/// The worker-days that one more unit costs: `1 / (productivity * rate)`, or
/// 1000000 where the next worker produces nothing.
pub open spec fn marginal_cost(current_workers: u32, slots: (u32, u32), rate: Dec) -> Dec {
    let p = marginal_productivity(current_workers, slots);
    if p.v() > 0 {
        decimal_quotient(Dec { mantissa: 1, scale: 0 }, decimal_product(p, rate))
    } else {
        Dec { mantissa: 1000000, scale: 0 }
    }
}

fn calculate_marginal_productivity(current_workers: u32, slots: (u32, u32)) -> (r: Dec)
    requires
        slots.0 + slots.1 <= u32::MAX,
    ensures
        r == marginal_productivity(current_workers, slots),
        r.wf(),
        0 <= r.v() <= unit(),
        r.v() == 0 || r.v() >= unit() / 2,
{
    proof {
        lemma_unit();
        assert(pow10(26) * 100 == unit()) by {
            reveal_with_fuel(pow10, 29);
        }
    }
    if current_workers < slots.0 {
        let r = Dec::new(10, 1);
        proof {
            assert(r.v() == 10 * pow10(27));
        }
        r
    } else if current_workers < slots.0 + slots.1 {
        let r = Dec::new(75, 2);
        proof {
            assert(r.v() == 75 * pow10(26));
            assert(pow10(26) == unit() / 100);
        }
        r
    } else {
        let r = Dec::new(0, 1);
        proof {
            assert(r.v() == 0 * pow10(27));
        }
        r
    }
}

fn calculate_marginal_cost(current_workers: u32, slots: (u32, u32), base_production_rate: Dec) -> (r: Dec)
    requires
        slots.0 + slots.1 <= u32::MAX,
        base_production_rate.wf(),
        base_production_rate.scale <= 1,
        0 < base_production_rate.mantissa <= 20,
        base_production_rate.v() <= 2 * unit(),
    ensures
        r == marginal_cost(current_workers, slots, base_production_rate),
        r.wf(),
        unit() / 4 <= r.v() <= 1000000 * unit(),
{
    proof {
        lemma_unit();
        lemma_v_sign(base_production_rate);
    }
    let productivity = calculate_marginal_productivity(current_workers, slots);
    if productivity.gt(&Dec::new(0, 0)) {
        proof {
            lemma_v_sign(productivity);
            assert(productivity.scale <= 2 && -100 <= productivity.mantissa <= 100);
            assert(base_production_rate.v() >= unit() / 10) by {
                let m = base_production_rate.mantissa as int;
                if base_production_rate.scale == 0 {
                    assert(base_production_rate.v() == m * pow10(28));
                    assert(m * pow10(28) >= unit() / 10) by (nonlinear_arith)
                        requires
                            m >= 1,
                            pow10(28) == unit(),
                            unit() == 10000000000000000000000000000,
                    ;
                } else {
                    assert(base_production_rate.v() == m * pow10(27));
                    assert(m * pow10(27) >= unit() / 10) by (nonlinear_arith)
                        requires
                            m >= 1,
                            pow10(27) * 10 == unit(),
                            unit() == 10000000000000000000000000000,
                    ;
                }
            }
            assert(base_production_rate.v() <= 20 * unit());
            lemma_abs_mul_le(productivity.v(), base_production_rate.v(), unit(), 20 * unit());
            assert(unit() * (20 * unit()) <= limit() * unit()) by (nonlinear_arith)
                requires
                    unit() == 10000000000000000000000000000,
                    limit() == (MAX_MANTISSA - 1) * unit(),
            ;
            assert(abs_int(productivity.mantissa * base_production_rate.mantissa) <= MAX_MANTISSA)
                by (nonlinear_arith)
                requires
                    -100 <= productivity.mantissa <= 100,
                    0 < base_production_rate.mantissa <= 20,
            ;
        }
        let rate = dec_mul(productivity, base_production_rate);
        proof {
            let rv = rate.v();
            let pv = productivity.v();
            let bv = base_production_rate.v();
            assert(rv * unit() == pv * bv);
            assert(pv * bv >= (unit() / 2) * (unit() / 10)) by (nonlinear_arith)
                requires
                    pv >= unit() / 2,
                    bv >= unit() / 10,
            ;
            assert(pv * bv <= unit() * (2 * unit())) by (nonlinear_arith)
                requires
                    0 <= pv <= unit(),
                    0 <= bv <= 2 * unit(),
            ;
            assert(rv >= unit() / 20) by (nonlinear_arith)
                requires
                    rv * unit() >= (unit() / 2) * (unit() / 10),
                    unit() == 10000000000000000000000000000,
            ;
            assert(rv <= 2 * unit()) by (nonlinear_arith)
                requires
                    rv * unit() <= unit() * (2 * unit()),
                    unit() > 0,
            ;
        }
        let one = Dec::new(1, 0);
        let r = dec_div(one, rate);
        proof {
            lemma_v_sign(r);
            let q = r.v();
            let rv = rate.v();
            assert(2 * q * rv >= 2 * unit() * unit() - rv * unit()) by (nonlinear_arith)
                requires
                    2 * abs_int(q * rv - unit() * unit()) <= abs_int(rv) * r.ulp(),
                    r.ulp() <= unit(),
                    rv > 0,
            ;
            assert(2 * unit() * unit() - rv * unit() >= 0) by (nonlinear_arith)
                requires
                    rv <= 2 * unit(),
                    unit() == 10000000000000000000000000000,
            ;
            assert(q >= 0) by (nonlinear_arith)
                requires
                    2 * q * rv >= 0,
                    rv > 0,
            ;
            assert(2 * q * rv <= 2 * unit() * unit() + rv * unit()) by (nonlinear_arith)
                requires
                    2 * abs_int(q * rv - unit() * unit()) <= abs_int(rv) * r.ulp(),
                    r.ulp() <= unit(),
                    rv > 0,
            ;
            assert(q <= 1000000 * unit()) by (nonlinear_arith)
                requires
                    2 * q * rv <= 2 * unit() * unit() + rv * unit(),
                    rv >= unit() / 20,
                    unit() == 10000000000000000000000000000,
            ;
            let e = abs_int(q) / 1000000000000000000000000000;
            assert(e <= 10000000);
            assert(2 * (unit() * unit() - q * rv) <= rv * (1 + e)) by (nonlinear_arith)
                requires
                    2 * abs_int(q * rv - unit() * unit()) <= abs_int(rv) * (1 + e),
                    rv > 0,
            ;
            assert(rv * (1 + e) <= 2 * unit() * 10000001) by (nonlinear_arith)
                requires
                    0 < rv <= 2 * unit(),
                    0 <= e <= 10000000,
            ;
            assert(q >= unit() / 4) by (nonlinear_arith)
                requires
                    2 * (unit() * unit() - q * rv) <= 2 * unit() * 10000001,
                    0 < rv <= 2 * unit(),
                    unit() == 10000000000000000000000000000,
            ;
        }
        r
    } else {
        Dec::new(1000000, 0)
    }
}

/// `(base * factor) * multiplier`, as the trading strategy prices orders.
fn trade_price(base: Dec, factor: Dec, multiplier: Dec) -> (r: Dec)
    requires
        base.wf(),
        abs_int(base.v()) <= 1000000000000 * unit(),
        modest(factor),
        abs_int(factor.v()) <= 2 * unit(),
        modest(multiplier),
    ensures
        r == decimal_product(decimal_product(base, factor), multiplier),
        r.wf(),
        abs_int(r.v()) <= 3000000000000000000 * unit(),
{
    proof {
        lemma_unit();
        lemma_abs_mul_le(base.v(), factor.v(), 1000000000000 * unit(), 2 * unit());
        assert((1000000000000 * unit()) * (2 * unit()) <= limit() * unit()) by (nonlinear_arith)
            requires
                unit() == 10000000000000000000000000000,
                limit() == (MAX_MANTISSA - 1) * unit(),
        ;
    }
    let scaled = dec_mul(base, factor);
    proof {
        lemma_product_size(base, factor, scaled);
        assert(abs_int(scaled.v()) <= 2000000000000 * unit() + unit()) by (nonlinear_arith)
            requires
                abs_int(scaled.v()) * unit() <= abs_int(base.v() * factor.v()) + unit() * unit(),
                abs_int(base.v() * factor.v()) <= (1000000000000 * unit()) * (2 * unit()),
                unit() == 10000000000000000000000000000,
        ;
        lemma_abs_mul_le(scaled.v(), multiplier.v(), 2000000000000 * unit() + unit(), 1000000 * unit());
        assert((2000000000000 * unit() + unit()) * (1000000 * unit()) <= limit() * unit())
            by (nonlinear_arith)
            requires
                unit() == 10000000000000000000000000000,
                limit() == (MAX_MANTISSA - 1) * unit(),
        ;
    }
    let r = dec_mul(scaled, multiplier);
    proof {
        lemma_product_size(scaled, multiplier, r);
        assert(abs_int(r.v()) <= 3000000000000000000 * unit()) by (nonlinear_arith)
            requires
                abs_int(r.v()) * unit() <= abs_int(scaled.v() * multiplier.v()) + unit() * unit(),
                abs_int(scaled.v() * multiplier.v()) <= (2000000000000 * unit() + unit()) * (1000000
                    * unit()),
                unit() == 10000000000000000000000000000,
        ;
    }
    r
}

/// Trading's split: a tenth to construction; of the rest, 80% to the
/// resource the village has more first-rate slots for and 20% to the other;
/// with as many slots for both, 70% to the resource whose next unit costs
/// fewer worker-days (food on a tie goes to wood), 30% to the other.
pub open spec fn trading_costs(v: VillageState) -> (Dec, Dec, Dec, Dec) {
    let construction = decimal_product(v.worker_days, Dec { mantissa: 1, scale: 1 });
    let remaining = decimal_difference(v.worker_days, construction);
    let estimate = whole_u32(decimal_product(remaining, Dec { mantissa: 5, scale: 1 }));
    let food_cost = marginal_cost(estimate, v.food_slots, Dec { mantissa: 20, scale: 1 });
    let wood_cost = marginal_cost(estimate, v.wood_slots, Dec { mantissa: 1, scale: 1 });
    (construction, remaining, food_cost, wood_cost)
}

/// The village has more first-rate slots for food than for wood.
pub open spec fn food_specialist(v: VillageState) -> bool {
    v.food_slots.0 > v.wood_slots.0
}

/// The village has more first-rate slots for wood than for food.
pub open spec fn wood_specialist(v: VillageState) -> bool {
    v.wood_slots.0 > v.food_slots.0
}

pub open spec fn trading_allocation(v: VillageState) -> WorkerAllocation {
    let (construction, remaining, food_cost, wood_cost) = trading_costs(v);
    let seven = Dec { mantissa: 7, scale: 1 };
    let three = Dec { mantissa: 3, scale: 1 };
    let eight = Dec { mantissa: 8, scale: 1 };
    let two = Dec { mantissa: 2, scale: 1 };
    if food_specialist(v) {
        WorkerAllocation {
            food: decimal_product(remaining, eight),
            wood: decimal_product(remaining, two),
            construction,
        }
    } else if wood_specialist(v) {
        WorkerAllocation {
            food: decimal_product(remaining, two),
            wood: decimal_product(remaining, eight),
            construction,
        }
    } else if food_cost.v() < wood_cost.v() {
        WorkerAllocation {
            food: decimal_product(remaining, seven),
            wood: decimal_product(remaining, three),
            construction,
        }
    } else {
        WorkerAllocation {
            food: decimal_product(remaining, three),
            wood: decimal_product(remaining, seven),
            construction,
        }
    }
}

/// Days of food (a unit per worker a day) and of wood (0.1 per house a day).
pub open spec fn days_of_food(v: VillageState) -> u32 {
    days_of_supply(v.food, whole(v.workers as int))
}

pub open spec fn days_of_wood(v: VillageState) -> u32 {
    days_of_supply(v.wood, decimal_product(whole(v.houses as int), Dec { mantissa: 1, scale: 1 }))
}

/// Trading's orders: sell up to the trade fraction of food (at most 50) when
/// specialised in food or rich in food and short of wood, with over 30 food,
/// and of wood (at most 30) when specialised in wood or rich in wood and short
/// of food, with over 20 wood, at 1.02 times the price; buy food (15 days' worth less
/// what is in stock, at most 50) or wood (at most 20) when short, at 0.98
/// times the price, if affordable with a fifth held back. Wood without a
/// market price is valued at the ratio of the marginal costs; food at 1.0.
pub open spec fn trading_decision(s: TradingStrategy, v: VillageState, m: MarketState) -> StrategyDecision {
    let (_construction, _remaining, food_cost, wood_cost) = trading_costs(v);
    let breakeven = decimal_quotient(food_cost, wood_cost);
    let fd = days_of_food(v);
    let wd = days_of_wood(v);
    let up = Dec { mantissa: 102, scale: 2 };
    let down = Dec { mantissa: 98, scale: 2 };
    let one = Dec { mantissa: 10, scale: 1 };
    let food_base = match m.last_food_price {
        Some(p) => p,
        None => one,
    };
    let wood_base = match m.last_wood_price {
        Some(p) => p,
        None => breakeven,
    };
    let food_ask_q = min_u32(whole_u32(decimal_product(v.food, s.max_trade_fraction)) as int, 50);
    let food_ask = if (food_specialist(v) || fd > 20 && wd < 15) && v.food.v() > 30 * unit() && food_ask_q > 0 {
        Some((decimal_product(decimal_product(food_base, up), s.price_multiplier), food_ask_q))
    } else {
        None
    };
    let wood_ask_q = min_u32(whole_u32(decimal_product(v.wood, s.max_trade_fraction)) as int, 30);
    let wood_ask = if (wood_specialist(v) || wd > 20 && fd < 15) && v.wood.v() > 20 * unit() && wood_ask_q > 0 {
        Some((decimal_product(decimal_product(wood_base, up), s.price_multiplier), wood_ask_q))
    } else {
        None
    };
    let food_bid_q = min_u32((15 - fd) * (v.workers as u32), 50);
    let food_bid_price = decimal_product(decimal_product(food_base, down), s.price_multiplier);
    let food_bid = if fd < 10 && v.money.v() > 20 * unit() && food_bid_q > 0 && affordable(
        v.money,
        food_bid_price,
        food_bid_q,
        Dec { mantissa: 2, scale: 1 },
    ) {
        Some((food_bid_price, food_bid_q))
    } else {
        None
    };
    let wood_bid_q = min_u32(15 - wd, 20);
    let wood_bid_price = decimal_product(decimal_product(wood_base, down), s.price_multiplier);
    let wood_bid = if wd < 10 && v.money.v() > 20 * unit() && wood_bid_q > 0 && affordable(
        v.money,
        wood_bid_price,
        wood_bid_q,
        Dec { mantissa: 2, scale: 1 },
    ) {
        Some((wood_bid_price, wood_bid_q))
    } else {
        None
    };
    StrategyDecision { allocation: trading_allocation(v), wood_bid, wood_ask, food_bid, food_ask }
}

/// Produces what is cheapest to produce at the margin and trades for the rest.
pub struct TradingStrategy {
    pub price_multiplier: Dec,
    pub max_trade_fraction: Dec,
}

impl TradingStrategy {
    pub fn new(price_multiplier: Dec, max_trade_fraction: Dec) -> (r: Self)
        ensures
            r.price_multiplier == price_multiplier,
            r.max_trade_fraction == max_trade_fraction,
    {
        TradingStrategy { price_multiplier, max_trade_fraction }
    }

    /// A multiplier of 1.0 and a trade fraction of 0.3.
    pub fn default_strategy() -> (r: Self)
        ensures
            r.price_multiplier == (Dec { mantissa: 10, scale: 1 }),
            r.max_trade_fraction == (Dec { mantissa: 3, scale: 1 }),
    {
        TradingStrategy { price_multiplier: Dec::new(10, 1), max_trade_fraction: Dec::new(3, 1) }
    }
}

impl Strategy for TradingStrategy {
    open spec fn accepts(&self, village: VillageState, market: MarketState) -> bool {
        &&& state_ok(village, market)
        &&& modest(self.price_multiplier)
        &&& modest(self.max_trade_fraction)
        &&& village.food_slots.0 + village.food_slots.1 <= u32::MAX
        &&& village.wood_slots.0 + village.wood_slots.1 <= u32::MAX
        &&& days_of_food(village) < 10 && village.money.v() > 20 * unit() ==> (15 - days_of_food(village))
            * (village.workers as u32) <= u32::MAX
        &&& match (market.last_wood_price, market.last_food_price) {
            (Some(w), Some(f)) => f.v() > 0 ==> abs_int(w.v()) <= (MAX_MANTISSA - 1) * f.v(),
            _ => true,
        }
    }

    fn decide_allocation_and_orders(&self, village: &VillageState, market: &MarketState) -> (r:
        StrategyDecision)
        ensures
            r == trading_decision(*self, *village, *market),
    {
        proof {
            lemma_unit();
        }
        let worker_days = village.worker_days;
        let construction_allocation = mul_sized(worker_days, Dec::new(1, 1));
        proof {
            assert(abs_int(construction_allocation.v()) <= 20000000000000 * unit()) by (nonlinear_arith)
                requires
                    abs_int(construction_allocation.v()) * unit() <= abs_int(
                        worker_days.v() * (Dec { mantissa: 1, scale: 1 }).v(),
                    ) + unit() * unit(),
                    abs_int(worker_days.v()) <= 100000000000000 * unit(),
                    (Dec { mantissa: 1, scale: 1 }).v() * 10 == unit(),
                    unit() == 10000000000000000000000000000,
            ;
        }
        let remaining = dec_sub(worker_days, construction_allocation);
        proof {
            lemma_rounded_size(worker_days.v() - construction_allocation.v(), remaining);
        }
        let estimate = whole_or_zero(&mul_any(remaining, Dec::new(5, 1)));
        let food_marginal_cost = calculate_marginal_cost(
            estimate,
            (village.food_slots.0, village.food_slots.1),
            Dec::new(20, 1),
        );
        let wood_marginal_cost = calculate_marginal_cost(
            estimate,
            (village.wood_slots.0, village.wood_slots.1),
            Dec::new(1, 1),
        );
        proof {
            assert(abs_int(food_marginal_cost.v()) <= (MAX_MANTISSA - 1) * wood_marginal_cost.v())
                by (nonlinear_arith)
                requires
                    food_marginal_cost.v() <= 1000000 * unit(),
                    food_marginal_cost.v() >= 0,
                    wood_marginal_cost.v() >= unit() / 4,
                    unit() == 10000000000000000000000000000,
            ;
        }
        let wood_per_food_breakeven = dec_div(food_marginal_cost, wood_marginal_cost);
        proof {
            lemma_quotient_size(food_marginal_cost, wood_marginal_cost, wood_per_food_breakeven);
            assert(abs_int(wood_per_food_breakeven.v()) <= 5000000 * unit()) by (nonlinear_arith)
                requires
                    abs_int(wood_per_food_breakeven.v()) * abs_int(wood_marginal_cost.v()) <= abs_int(
                        food_marginal_cost.v(),
                    ) * unit() + abs_int(wood_marginal_cost.v()) * unit(),
                    0 <= food_marginal_cost.v() <= 1000000 * unit(),
                    wood_marginal_cost.v() >= unit() / 4,
                    unit() == 10000000000000000000000000000,
            ;
        }
        let allocation = if village.food_slots.0 > village.wood_slots.0 {
            WorkerAllocation {
                food: mul_any(remaining, Dec::new(8, 1)),
                wood: mul_any(remaining, Dec::new(2, 1)),
                construction: construction_allocation,
            }
        } else if village.wood_slots.0 > village.food_slots.0 {
            WorkerAllocation {
                food: mul_any(remaining, Dec::new(2, 1)),
                wood: mul_any(remaining, Dec::new(8, 1)),
                construction: construction_allocation,
            }
        } else if food_marginal_cost.lt(&wood_marginal_cost) {
            WorkerAllocation {
                food: mul_any(remaining, Dec::new(7, 1)),
                wood: mul_any(remaining, Dec::new(3, 1)),
                construction: construction_allocation,
            }
        } else {
            WorkerAllocation {
                food: mul_any(remaining, Dec::new(3, 1)),
                wood: mul_any(remaining, Dec::new(7, 1)),
                construction: construction_allocation,
            }
        };
        let _market_wood_per_food = match (market.last_wood_price, market.last_food_price) {
            (Some(wood_price), Some(food_price)) => {
                if food_price.gt(&Dec::new(0, 0)) {
                    dec_div(wood_price, food_price)
                } else {
                    wood_per_food_breakeven
                }
            },
            _ => wood_per_food_breakeven,
        };
        let food_days = calculate_resource_days(village.food, count_dec(village.workers));
        let wood_per_day = house_upkeep(village.houses);
        let wood_days = calculate_resource_days(village.wood, wood_per_day);
        let up = Dec::new(102, 2);
        let down = Dec::new(98, 2);
        let food_base = match market.last_food_price {
            Some(p) => p,
            None => Dec::new(10, 1),
        };
        let wood_base = match market.last_wood_price {
            Some(p) => p,
            None => wood_per_food_breakeven,
        };
        let mut wood_bid = None;
        let mut wood_ask = None;
        let mut food_bid = None;
        let mut food_ask = None;
        let food_specialised = village.food_slots.0 > village.wood_slots.0;
        let wood_specialised = village.wood_slots.0 > village.food_slots.0;
        if (food_specialised || food_days > 20 && wood_days < 15) && village.food.gt(&Dec::new(30, 0)) {
            let quantity = min_of(whole_or_zero(&mul_any(village.food, self.max_trade_fraction)), 50);
            if quantity > 0 {
                food_ask = Some((trade_price(food_base, up, self.price_multiplier), quantity));
            }
        }
        if (wood_specialised || wood_days > 20 && food_days < 15) && village.wood.gt(&Dec::new(20, 0)) {
            let quantity = min_of(whole_or_zero(&mul_any(village.wood, self.max_trade_fraction)), 30);
            if quantity > 0 {
                wood_ask = Some((trade_price(wood_base, up, self.price_multiplier), quantity));
            }
        }
        if food_days < 10 && village.money.gt(&Dec::new(20, 0)) {
            let quantity = min_of((15 - food_days) * village.workers as u32, 50);
            if quantity > 0 {
                let food_price = trade_price(food_base, down, self.price_multiplier);
                if can_afford_quantity(village.money, food_price, quantity, Dec::new(2, 1)) {
                    food_bid = Some((food_price, quantity));
                }
            }
        }
        if wood_days < 10 && village.money.gt(&Dec::new(20, 0)) {
            let quantity = min_of(15 - wood_days, 20);
            if quantity > 0 {
                let wood_price = trade_price(wood_base, down, self.price_multiplier);
                if can_afford_quantity(village.money, wood_price, quantity, Dec::new(2, 1)) {
                    wood_bid = Some((wood_price, quantity));
                }
            }
        }
        StrategyDecision { allocation, wood_bid, wood_ask, food_bid, food_ask }
    }

    fn name(&self) -> (r: &str)
        ensures
            r@ == "Trading"@,
    {
        "Trading"
    }
}

/// The product of two values whose magnitudes multiply to at most
/// `2 * 10^20`.
fn mul_any(a: Dec, b: Dec) -> (r: Dec)
    requires
        a.wf(),
        b.wf(),
        abs_int(a.v()) <= 200000000000000 * unit(),
        abs_int(b.v()) <= 1000000 * unit(),
    ensures
        r == decimal_product(a, b),
        r.wf(),
        abs_int(r.v()) <= 200000000000000000000 * unit() + unit(),
        abs_int(r.v()) * unit() <= abs_int(a.v() * b.v()) + unit() * unit(),
{
    proof {
        lemma_unit();
        lemma_abs_mul_le(a.v(), b.v(), 200000000000000 * unit(), 1000000 * unit());
        assert((200000000000000 * unit()) * (1000000 * unit()) <= limit() * unit())
            by (nonlinear_arith)
            requires
                unit() == 10000000000000000000000000000,
                limit() == (MAX_MANTISSA - 1) * unit(),
        ;
    }
    let r = dec_mul(a, b);
    proof {
        lemma_product_size(a, b, r);
        assert(abs_int(r.v()) <= 200000000000000000000 * unit() + unit()) by (nonlinear_arith)
            requires
                abs_int(r.v()) * unit() <= abs_int(a.v() * b.v()) + unit() * unit(),
                abs_int(a.v() * b.v()) <= (200000000000000 * unit()) * (1000000 * unit()),
                unit() == 10000000000000000000000000000,
        ;
    }
    r
}

/// Wood that the houses use a day: 0.1 each.
fn house_upkeep(houses: usize) -> (r: Dec)
    requires
        houses <= 1000000000,
    ensures
        r == decimal_product(whole(houses as int), Dec { mantissa: 1, scale: 1 }),
        r.wf(),
        r.v() * 10 == houses * unit(),
{
    proof {
        lemma_unit();
    }
    let count = count_dec(houses);
    let tenth = Dec::new(1, 1);
    proof {
        assert(count.v() * tenth.v() == houses * unit() * pow10(27)) by (nonlinear_arith)
            requires
                count.v() == houses * unit(),
                tenth.v() == 1 * pow10(27),
        ;
        lemma_abs_mul_le(count.v(), tenth.v(), 1000000000 * unit(), unit());
        assert((1000000000 * unit()) * unit() <= limit() * unit()) by (nonlinear_arith)
            requires
                unit() == 10000000000000000000000000000,
                limit() == (MAX_MANTISSA - 1) * unit(),
        ;
    }
    let r = dec_mul(count, tenth);
    proof {
        assert(r.v() * unit() == houses * unit() * pow10(27));
        assert(r.v() * 10 == houses * unit()) by (nonlinear_arith)
            requires
                r.v() * unit() == houses * unit() * pow10(27),
                pow10(27) * 10 == unit(),
                unit() > 0,
        ;
    }
    r
}

/// The share of one weight in the sum of two, as a decimal quotient.
pub open spec fn share(weight: Dec, other: Dec) -> Dec {
    decimal_quotient(weight, decimal_sum(weight, other))
}

/// Survival's weights: 0.7 for food below its target, else 0.4; 0.5 for
/// wood below its target, else 0.3.
pub open spec fn survival_weights(s: SurvivalStrategy, v: VillageState) -> (Dec, Dec) {
    (
        if days_of_food(v) < s.min_food_days {
            Dec { mantissa: 7, scale: 1 }
        } else {
            Dec { mantissa: 4, scale: 1 }
        },
        if days_of_wood(v) < s.min_wood_days {
            Dec { mantissa: 5, scale: 1 }
        } else {
            Dec { mantissa: 3, scale: 1 }
        },
    )
}

/// The weighted split, before any construction.
pub open spec fn survival_split(s: SurvivalStrategy, v: VillageState) -> (Dec, Dec) {
    let (fw, ww) = survival_weights(s, v);
    (decimal_product(v.worker_days, share(fw, ww)), decimal_product(v.worker_days, share(ww, fw)))
}

/// Survival builds only with both stocks above target.
pub open spec fn survival_builds(s: SurvivalStrategy, v: VillageState) -> bool {
    days_of_food(v) >= 5 && days_of_wood(v) >= 5 && days_of_food(v) > s.min_food_days && days_of_wood(v)
        > s.min_wood_days
}

/// Construction's share when building: a tenth of the worker-days.
pub open spec fn survival_construction(s: SurvivalStrategy, v: VillageState) -> Dec {
    decimal_product(v.worker_days, Dec { mantissa: 1, scale: 1 })
}

/// Survival's allocation: everything to food when it lasts under 5 days,
/// else everything to wood when that lasts under 5 days, else the weighted
/// split; with both stocks above target, construction gets its share and
/// food and wood keep their proportions in the rest.
pub open spec fn survival_allocation(s: SurvivalStrategy, v: VillageState) -> WorkerAllocation {
    let zero = Dec { mantissa: 0, scale: 0 };
    let wd = v.worker_days;
    if days_of_food(v) < 5 {
        WorkerAllocation { wood: zero, food: wd, construction: zero }
    } else if days_of_wood(v) < 5 {
        WorkerAllocation { wood: wd, food: zero, construction: zero }
    } else {
        let (food, wood) = survival_split(s, v);
        if survival_builds(s, v) {
            let c = survival_construction(s, v);
            let new_food = decimal_quotient(
                decimal_product(food, decimal_difference(wd, c)),
                decimal_sum(food, wood),
            );
            WorkerAllocation {
                food: new_food,
                wood: decimal_difference(decimal_difference(wd, new_food), c),
                construction: c,
            }
        } else {
            WorkerAllocation { wood, food, construction: zero }
        }
    }
}

/// Survival's orders: below 10 days of food, buy up to the target (at most
/// 50) at 1.1 times the price, or at what 80% of the money pays for; below
/// 10 days of wood, buy up to the target (at most 20) at 1.1 times the price
/// capped at what half the money pays for; above twice a target, offer half
/// the excess (at most 50 food or 20 wood) at 0.9 times the price.
pub open spec fn survival_decision(s: SurvivalStrategy, v: VillageState, m: MarketState) -> StrategyDecision {
    let fd = days_of_food(v);
    let wd = days_of_wood(v);
    let twenty = 20 * unit();
    let fpd = whole(v.workers as int);
    let wpd = decimal_product(whole(v.houses as int), Dec { mantissa: 1, scale: 1 });
    let food_q = min_u32((s.min_food_days - fd) * (v.workers as u32), 50);
    let food_price = quoted(m.last_food_price, default_price(false), Dec { mantissa: 11, scale: 1 });
    let food_bid = if fd < 10 && v.money.v() > twenty {
        if affordable(v.money, food_price, food_q, Dec { mantissa: 2, scale: 1 }) {
            Some((food_price, food_q))
        } else {
            Some(
                (
                    dmin(
                        food_price,
                        decimal_product(
                            decimal_quotient(v.money, whole(food_q as int)),
                            Dec { mantissa: 8, scale: 1 },
                        ),
                    ),
                    food_q,
                ),
            )
        }
    } else {
        None
    };
    let wood_q = min_u32(s.min_wood_days - wd, 20);
    let wood_price = quoted(m.last_wood_price, default_price(true), Dec { mantissa: 11, scale: 1 });
    let wood_bid = if wd < 10 && v.money.v() > twenty {
        Some(
            (
                dmin(
                    wood_price,
                    decimal_product(
                        decimal_quotient(v.money, whole(wood_q as int)),
                        Dec { mantissa: 5, scale: 1 },
                    ),
                ),
                wood_q,
            ),
        )
    } else {
        None
    };
    let food_excess = decimal_difference(v.food, decimal_product(whole(s.min_food_days as int), fpd));
    let food_ask_q = min_u32(
        whole_u32(decimal_quotient(food_excess, Dec { mantissa: 2, scale: 0 })) as int,
        50,
    );
    let food_ask = if fd > s.min_food_days * 2 && food_ask_q > 0 {
        Some((quoted(m.last_food_price, default_price(false), Dec { mantissa: 9, scale: 1 }), food_ask_q))
    } else {
        None
    };
    let wood_excess = decimal_difference(v.wood, decimal_product(whole(s.min_wood_days as int), wpd));
    let wood_ask_q = min_u32(
        whole_u32(decimal_quotient(wood_excess, Dec { mantissa: 2, scale: 0 })) as int,
        20,
    );
    let wood_ask = if wd > s.min_wood_days * 2 && wood_ask_q > 0 {
        Some((quoted(m.last_wood_price, default_price(true), Dec { mantissa: 9, scale: 1 }), wood_ask_q))
    } else {
        None
    };
    StrategyDecision { allocation: survival_allocation(s, v), wood_bid, wood_ask, food_bid, food_ask }
}

/// Meets immediate needs first and keeps reserves of food and wood.
pub struct SurvivalStrategy {
    pub min_food_days: u32,
    pub min_wood_days: u32,
}

impl SurvivalStrategy {
    pub fn new(min_food_days: u32, min_shelter_buffer: u32) -> (r: Self)
        ensures
            r.min_food_days == min_food_days,
            r.min_wood_days == min_shelter_buffer,
    {
        SurvivalStrategy { min_food_days, min_wood_days: min_shelter_buffer }
    }

    /// Targets of 20 days of food and 10 of wood.
    pub fn default_strategy() -> (r: Self)
        ensures
            r.min_food_days == 20,
            r.min_wood_days == 10,
    {
        SurvivalStrategy { min_food_days: 20, min_wood_days: 10 }
    }
}

impl Strategy for SurvivalStrategy {
    open spec fn accepts(&self, village: VillageState, market: MarketState) -> bool {
        let fd = days_of_food(village);
        let wd = days_of_wood(village);
        let (food, wood) = survival_split(*self, village);
        &&& state_ok(village, market)
        &&& self.min_food_days <= 1000000000
        &&& self.min_wood_days <= 1000000000
        &&& fd < 10 && village.money.v() > 20 * unit() ==> fd <= self.min_food_days && (
        self.min_food_days - fd) * (village.workers as u32) <= u32::MAX
        &&& wd < 10 && village.money.v() > 20 * unit() ==> wd < self.min_wood_days
        &&& survival_builds(*self, village) ==> rebalance_ok(village.worker_days, food, wood)
    }

    fn decide_allocation_and_orders(&self, village: &VillageState, market: &MarketState) -> (r:
        StrategyDecision)
        ensures
            r == survival_decision(*self, *village, *market),
    {
        proof {
            lemma_unit();
        }
        let worker_days = village.worker_days;
        let food_per_day = count_dec(village.workers);
        let wood_per_day = house_upkeep(village.houses);
        let food_days = calculate_resource_days(village.food, food_per_day);
        let wood_days = calculate_resource_days(village.wood, wood_per_day);
        let zero = Dec::new(0, 0);
        let mut allocation = WorkerAllocation { wood: zero, food: zero, construction: zero };
        if food_days < 5 {
            allocation.food = worker_days;
        } else if wood_days < 5 {
            allocation.wood = worker_days;
        } else {
            let food_weight = if food_days < self.min_food_days {
                Dec::new(7, 1)
            } else {
                Dec::new(4, 1)
            };
            let wood_weight = if wood_days < self.min_wood_days {
                Dec::new(5, 1)
            } else {
                Dec::new(3, 1)
            };
            let food_share = weight_share(food_weight, wood_weight);
            let wood_share = weight_share(wood_weight, food_weight);
            allocation.food = mul_any(worker_days, food_share);
            allocation.wood = mul_any(worker_days, wood_share);
            if food_days > self.min_food_days && wood_days > self.min_wood_days {
                proof {
                    lemma_split_size(worker_days, food_share, allocation.food);
                    lemma_split_size(worker_days, wood_share, allocation.wood);
                }
                allocation = rebalance(worker_days, allocation.food, allocation.wood);
            }
        }
        let twenty = Dec::new(20, 0);
        let mut wood_bid = None;
        let mut wood_ask = None;
        let mut food_bid = None;
        let mut food_ask = None;
        if food_days < 10 && village.money.gt(&twenty) {
            let quantity = min_of((self.min_food_days - food_days) * village.workers as u32, 50);
            let price = calculate_price(market.last_food_price, false, Dec::new(11, 1));
            if can_afford_quantity(village.money, price, quantity, Dec::new(2, 1)) {
                food_bid = Some((price, quantity));
            } else {
                let per_unit = share_of_money(village.money, quantity);
                let max_price = mul_any(per_unit, Dec::new(8, 1));
                food_bid = Some((price.min(max_price), quantity));
            }
        }
        if wood_days < 10 && village.money.gt(&twenty) {
            let quantity = min_of(self.min_wood_days - wood_days, 20);
            let price = calculate_price(market.last_wood_price, true, Dec::new(11, 1));
            let per_unit = share_of_money(village.money, quantity);
            let max_price = mul_any(per_unit, Dec::new(5, 1));
            wood_bid = Some((price.min(max_price), quantity));
        }
        if food_days > self.min_food_days * 2 {
            let target = mul_counts(Dec::from_u32(self.min_food_days), food_per_day);
            let excess = dec_sub(village.food, target);
            proof {
                lemma_rounded_size(village.food.v() - target.v(), excess);
            }
            let quantity = min_of(whole_or_zero(&halve(excess)), 50);
            if quantity > 0 {
                let price = calculate_price(market.last_food_price, false, Dec::new(9, 1));
                food_ask = Some((price, quantity));
            }
        }
        if wood_days > self.min_wood_days * 2 {
            let target = mul_counts(Dec::from_u32(self.min_wood_days), wood_per_day);
            let excess = dec_sub(village.wood, target);
            proof {
                lemma_rounded_size(village.wood.v() - target.v(), excess);
            }
            let quantity = min_of(whole_or_zero(&halve(excess)), 20);
            if quantity > 0 {
                let price = calculate_price(market.last_wood_price, true, Dec::new(9, 1));
                wood_ask = Some((price, quantity));
            }
        }
        StrategyDecision { allocation, wood_bid, wood_ask, food_bid, food_ask }
    }

    fn name(&self) -> (r: &str)
        ensures
            r@ == "Survival"@,
    {
        "Survival"
    }
}

/// `weight / (weight + other)` for weights between 0.3 and 0.7.
fn weight_share(weight: Dec, other: Dec) -> (r: Dec)
    requires
        weight.wf(),
        other.wf(),
        weight.scale == 1,
        other.scale == 1,
        3 <= weight.mantissa <= 7,
        3 <= other.mantissa <= 7,
    ensures
        r == share(weight, other),
        r.wf(),
        0 <= r.v() <= unit(),
{
    proof {
        lemma_unit();
        assert(weight.v() == weight.mantissa * pow10(27));
        assert(other.v() == other.mantissa * pow10(27));
        assert(3 * pow10(27) <= weight.v() <= 7 * pow10(27)) by (nonlinear_arith)
            requires
                weight.v() == weight.mantissa * pow10(27),
                3 <= weight.mantissa <= 7,
                pow10(27) > 0,
        ;
        assert(3 * pow10(27) <= other.v() <= 7 * pow10(27)) by (nonlinear_arith)
            requires
                other.v() == other.mantissa * pow10(27),
                3 <= other.mantissa <= 7,
                pow10(27) > 0,
        ;
        lemma_exact_sum(weight, other, 1);
    }
    let total = dec_add(weight, other);
    proof {
        assert(total.v() == weight.v() + other.v());
    }
    let r = dec_div(weight, total);
    proof {
        lemma_v_sign(r);
        let q = r.v();
        let t = total.v();
        let w = weight.v();
        let u = unit();
        assert(2 * q * t <= 2 * w * u + t * u) by (nonlinear_arith)
            requires
                2 * abs_int(q * t - w * u) <= abs_int(t) * r.ulp(),
                r.ulp() <= u,
                t > 0,
        ;
        assert(q <= 2 * u) by (nonlinear_arith)
            requires
                2 * q * t <= 2 * w * u + t * u,
                w <= t,
                t > 0,
                u > 0,
        ;
        assert(2 * (w * u - q * t) <= t * u) by (nonlinear_arith)
            requires
                2 * abs_int(q * t - w * u) <= abs_int(t) * r.ulp(),
                r.ulp() <= u,
                t > 0,
        ;
        assert(q >= -u) by (nonlinear_arith)
            requires
                2 * (w * u - q * t) <= t * u,
                w >= 0,
                t > 0,
                u > 0,
        ;
        let e = abs_int(q) / 1000000000000000000000000000;
        assert(e <= 20);
        assert(2 * (q * t - w * u) <= t * (1 + e)) by (nonlinear_arith)
            requires
                2 * abs_int(q * t - w * u) <= abs_int(t) * (1 + e),
                t > 0,
        ;
        assert(2 * (w * u - q * t) <= t * (1 + e)) by (nonlinear_arith)
            requires
                2 * abs_int(q * t - w * u) <= abs_int(t) * (1 + e),
                t > 0,
        ;
        assert(t * (1 + e) <= t * 21) by (nonlinear_arith)
            requires
                0 <= e <= 20,
                t > 0,
        ;
        assert(q >= 0) by (nonlinear_arith)
            requires
                2 * (w * u - q * t) <= t * 21,
                w >= 3 * pow10(27),
                t <= 14 * pow10(27),
                t > 0,
                u == 10000000000000000000000000000,
                pow10(27) == 1000000000000000000000000000,
        ;
        assert(10 * w <= 7 * t) by (nonlinear_arith)
            requires
                t == w + other.v(),
                3 * pow10(27) <= w <= 7 * pow10(27),
                3 * pow10(27) <= other.v() <= 7 * pow10(27),
        ;
        assert(q <= u) by (nonlinear_arith)
            requires
                2 * (q * t - w * u) <= t * 21,
                10 * w <= 7 * t,
                t > 0,
                u == 10000000000000000000000000000,
                t <= 14 * 1000000000000000000000000000,
        ;
        assert(pow10(27) == 1000000000000000000000000000);
    }
    r
}

/// Construction's share out of `wd`: a tenth of it.
pub open spec fn rebalanced_construction(wd: Dec, food: Dec, wood: Dec) -> Dec {
    decimal_product(wd, Dec { mantissa: 1, scale: 1 })
}

/// Food's share of what construction leaves, in proportion to food and wood.
pub open spec fn rebalanced_food(wd: Dec, food: Dec, wood: Dec) -> Dec {
    decimal_quotient(
        decimal_product(food, decimal_difference(wd, rebalanced_construction(wd, food, wood))),
        decimal_sum(food, wood),
    )
}

/// The rebalancing divides by a nonzero amount and its quotient and the
/// subtractions after it stay in range.
pub open spec fn rebalance_ok(wd: Dec, food: Dec, wood: Dec) -> bool {
    let c = rebalanced_construction(wd, food, wood);
    let numerator = decimal_product(food, decimal_difference(wd, c));
    let denominator = decimal_sum(food, wood);
    let nf = rebalanced_food(wd, food, wood);
    &&& denominator.v() != 0
    &&& abs_int(numerator.v()) <= (MAX_MANTISSA - 1) * abs_int(denominator.v())
    &&& abs_int(wd.v() - nf.v()) <= limit()
    &&& abs_int(decimal_difference(wd, nf).v() - c.v()) <= limit()
}

proof fn lemma_split_size(wd: Dec, share: Dec, r: Dec)
    requires
        sizable(wd),
        0 <= share.v() <= unit(),
        abs_int(r.v()) * unit() <= abs_int(wd.v() * share.v()) + unit() * unit(),
    ensures
        abs_int(r.v()) <= abs_int(wd.v()) + unit(),
{
    lemma_unit();
    lemma_abs_mul_le(wd.v(), share.v(), abs_int(wd.v()), unit());
    assert(abs_int(r.v()) <= abs_int(wd.v()) + unit()) by (nonlinear_arith)
        requires
            abs_int(r.v()) * unit() <= abs_int(wd.v()) * unit() + unit() * unit(),
            unit() > 0,
    ;
}

/// Gives construction its share (a tenth of the worker-days, or what food and
/// wood leave if that is less), then splits the rest between food and wood
/// in proportion to their shares.
fn rebalance(worker_days: Dec, food: Dec, wood: Dec) -> (r: WorkerAllocation)
    requires
        sizable(worker_days),
        food.wf(),
        wood.wf(),
        abs_int(food.v()) <= abs_int(worker_days.v()) + unit(),
        abs_int(wood.v()) <= abs_int(worker_days.v()) + unit(),
        rebalance_ok(worker_days, food, wood),
    ensures
        r == (WorkerAllocation {
            food: rebalanced_food(worker_days, food, wood),
            wood: decimal_difference(
                decimal_difference(worker_days, rebalanced_food(worker_days, food, wood)),
                rebalanced_construction(worker_days, food, wood),
            ),
            construction: rebalanced_construction(worker_days, food, wood),
        }),
{
    proof {
        lemma_unit();
    }
    let tenth = mul_any(worker_days, Dec::new(1, 1));
    proof {
        lemma_v_sign(Dec { mantissa: 1, scale: 1 });
        lemma_abs_mul_le(worker_days.v(), (Dec { mantissa: 1, scale: 1 }).v(), abs_int(worker_days.v()), unit());
        assert(abs_int(tenth.v()) <= abs_int(worker_days.v()) + unit()) by (nonlinear_arith)
            requires
                abs_int(tenth.v()) * unit() <= abs_int(worker_days.v() * (Dec { mantissa: 1, scale: 1 }).v())
                    + unit() * unit(),
                abs_int(worker_days.v() * (Dec { mantissa: 1, scale: 1 }).v()) <= abs_int(worker_days.v()) * unit(),
                unit() > 0,
        ;
    }
    let construction = tenth;
    let rest = dec_sub(worker_days, construction);
    proof {
        lemma_rounded_size(worker_days.v() - construction.v(), rest);
        let w = abs_int(worker_days.v());
        assert(abs_int(rest.v()) <= 4 * w + 5 * unit());
        assert(abs_int(food.v()) <= w + unit());
        lemma_abs_mul_le(food.v(), rest.v(), w + unit(), 4 * w + 5 * unit());
        assert((w + unit()) * (4 * w + 5 * unit()) <= limit() * unit()) by (nonlinear_arith)
            requires
                0 <= w <= 100000000000000 * unit(),
                unit() == 10000000000000000000000000000,
                limit() == (MAX_MANTISSA - 1) * unit(),
        ;
    }
    let numerator = dec_mul(food, rest);
    let denominator = dec_add(food, wood);
    let new_food = dec_div(numerator, denominator);
    let new_wood = dec_sub(dec_sub(worker_days, new_food), construction);
    WorkerAllocation { food: new_food, wood: new_wood, construction }
}

/// The money divided by a positive quantity.
fn share_of_money(money: Dec, quantity: u32) -> (r: Dec)
    requires
        sizable(money),
        quantity > 0,
    ensures
        r == decimal_quotient(money, whole(quantity as int)),
        r.wf(),
        abs_int(r.v()) <= 200000000000000 * unit(),
{
    proof {
        lemma_unit();
    }
    let q = Dec::from_u32(quantity);
    proof {
        assert(abs_int(money.v()) <= (MAX_MANTISSA - 1) * abs_int(q.v())) by (nonlinear_arith)
            requires
                abs_int(money.v()) <= 100000000000000 * unit(),
                q.v() == quantity * unit(),
                quantity >= 1,
                unit() > 0,
        ;
    }
    let r = dec_div(money, q);
    proof {
        lemma_quotient_size(money, q, r);
        assert(abs_int(r.v()) <= 200000000000000 * unit()) by (nonlinear_arith)
            requires
                abs_int(r.v()) * abs_int(q.v()) <= abs_int(money.v()) * unit() + abs_int(q.v()) * unit(),
                abs_int(money.v()) <= 100000000000000 * unit(),
                q.v() == quantity * unit(),
                quantity >= 1,
                unit() == 10000000000000000000000000000,
        ;
    }
    r
}

/// The product of two counts of at most `10^9`.
fn mul_counts(a: Dec, b: Dec) -> (r: Dec)
    requires
        a.wf(),
        b.wf(),
        abs_int(a.v()) <= 1000000000 * unit(),
        abs_int(b.v()) <= 1000000000 * unit(),
    ensures
        r == decimal_product(a, b),
        r.wf(),
        abs_int(r.v()) <= 1000000000000000000 * unit() + unit(),
        abs_int(r.v()) * unit() <= abs_int(a.v() * b.v()) + unit() * unit(),
{
    proof {
        lemma_unit();
        lemma_abs_mul_le(a.v(), b.v(), 1000000000 * unit(), 1000000000 * unit());
        assert((1000000000 * unit()) * (1000000000 * unit()) <= limit() * unit()) by (nonlinear_arith)
            requires
                unit() == 10000000000000000000000000000,
                limit() == (MAX_MANTISSA - 1) * unit(),
        ;
    }
    let r = dec_mul(a, b);
    proof {
        lemma_product_size(a, b, r);
        assert(abs_int(r.v()) <= 1000000000000000000 * unit() + unit()) by (nonlinear_arith)
            requires
                abs_int(r.v()) * unit() <= abs_int(a.v() * b.v()) + unit() * unit(),
                abs_int(a.v() * b.v()) <= (1000000000 * unit()) * (1000000000 * unit()),
                unit() == 10000000000000000000000000000,
        ;
    }
    r
}

/// Half of a value of magnitude at most `2 * 10^18`.
fn halve(a: Dec) -> (r: Dec)
    requires
        a.wf(),
        abs_int(a.v()) <= 2000000000000000000 * unit(),
    ensures
        r == decimal_quotient(a, Dec { mantissa: 2, scale: 0 }),
        r.wf(),
{
    proof {
        lemma_unit();
    }
    let two = Dec::new(2, 0);
    proof {
        assert(two.v() == 2 * unit());
    }
    dec_div(a, two)
}

/// The target number of workers per unit of house capacity for a target
/// population: `(target_population - house_buffer) / max(target_population / 5, 1)`,
/// kept between 2.0 and 4.5; 3.5 without a target.
pub open spec fn growth_ratio(target_population: usize, house_buffer: usize) -> Dec {
    if target_population > 0 {
        let fifth = decimal_quotient(whole(target_population as int), Dec { mantissa: 5, scale: 0 });
        let per = if fifth.v() < unit() {
            Dec { mantissa: 1, scale: 0 }
        } else {
            fifth
        };
        let ratio = decimal_quotient(
            decimal_difference(whole(target_population as int), whole(house_buffer as int)),
            per,
        );
        if ratio.v() < 2 * unit() {
            Dec { mantissa: 20, scale: 1 }
        } else if ratio.v() > 45 * unit() / 10 {
            Dec { mantissa: 45, scale: 1 }
        } else {
            ratio
        }
    } else {
        Dec { mantissa: 35, scale: 1 }
    }
}

/// More houses are needed when workers per house exceed the target (3.5 of a
/// house's 5 places, 70% occupancy, by default) or fewer free places than the
/// buffer remain.
pub open spec fn needs_houses(s: GrowthStrategy, v: VillageState) -> bool {
    let houses = if v.houses > 1 {
        v.houses
    } else {
        1
    };
    let ratio = decimal_quotient(whole(v.workers as int), whole(houses as int));
    let free = if v.house_capacity > v.workers {
        v.house_capacity - v.workers
    } else {
        0
    };
    ratio.v() > s.target_worker_to_house_ratio.v() || free < s.house_buffer
}

/// Growth's decision: 30% wood, 50% food and 20% construction when more
/// houses are needed, else 40% wood and 60% food; buy 20 wood at 1.2 times
/// the price (1.3 when short of free places) when houses are needed and wood
/// is under 30; buy 30 days of food (at most 100) at 1.15 times the price
/// when it lasts under 30 days; sell 20 wood at 0.85 times the price above
/// 100 wood when no houses are needed.
pub open spec fn growth_decision(s: GrowthStrategy, v: VillageState, m: MarketState) -> StrategyDecision {
    let wd = v.worker_days;
    let need = needs_houses(s, v);
    let allocation = if need {
        WorkerAllocation {
            wood: decimal_product(wd, Dec { mantissa: 3, scale: 1 }),
            food: decimal_product(wd, Dec { mantissa: 5, scale: 1 }),
            construction: decimal_product(wd, Dec { mantissa: 2, scale: 1 }),
        }
    } else {
        WorkerAllocation {
            wood: decimal_product(wd, Dec { mantissa: 4, scale: 1 }),
            food: decimal_product(wd, Dec { mantissa: 6, scale: 1 }),
            construction: Dec { mantissa: 0, scale: 0 },
        }
    };
    let free = if v.house_capacity > v.workers {
        v.house_capacity - v.workers
    } else {
        0
    };
    let wood_bid = if need && v.wood.v() < 30 * unit() && v.money.v() > 50 * unit() {
        Some(
            (
                quoted(
                    m.last_wood_price,
                    default_price(true),
                    if free < s.house_buffer {
                        Dec { mantissa: 13, scale: 1 }
                    } else {
                        Dec { mantissa: 12, scale: 1 }
                    },
                ),
                20u32,
            ),
        )
    } else {
        None
    };
    let food_bid = if days_of_food(v) < 30 && v.money.v() > 30 * unit() {
        Some(
            (
                quoted(m.last_food_price, default_price(false), Dec { mantissa: 115, scale: 2 }),
                min_u32(30 * (v.workers as u32), 100),
            ),
        )
    } else {
        None
    };
    let wood_ask = if v.wood.v() > 100 * unit() && !need {
        Some((quoted(m.last_wood_price, default_price(true), Dec { mantissa: 85, scale: 2 }), 20u32))
    } else {
        None
    };
    StrategyDecision { allocation, wood_bid, wood_ask, food_bid, food_ask: None }
}

/// Builds houses so that the population can grow.
pub struct GrowthStrategy {
    pub target_worker_to_house_ratio: Dec,
    pub house_buffer: usize,
}

impl GrowthStrategy {
    pub fn new(target_population: usize, house_buffer: usize) -> (r: Self)
        ensures
            r.target_worker_to_house_ratio == growth_ratio(target_population, house_buffer),
            r.house_buffer == house_buffer,
            r.target_worker_to_house_ratio.wf(),
    {
        proof {
            lemma_unit();
        }
        let target_ratio = if target_population > 0 {
            let population = Dec::from_usize(target_population);
            let five = Dec::new(5, 0);
            proof {
                assert(population.v() <= 18446744073709551615 * unit());
                assert(abs_int(population.v()) <= (MAX_MANTISSA - 1) * abs_int(five.v()));
            }
            let fifth = dec_div(population, five);
            let one = Dec::new(1, 0);
            let per = if fifth.lt(&one) {
                one
            } else {
                fifth
            };
            let buffer = Dec::from_usize(house_buffer);
            let difference = dec_sub(population, buffer);
            proof {
                lemma_rounded_size(population.v() - buffer.v(), difference);
                lemma_v_sign(per);
            }
            let ratio = dec_div(difference, per);
            if ratio.lt(&Dec::new(2, 0)) {
                Dec::new(20, 1)
            } else if ratio.gt(&Dec::new(45, 1)) {
                Dec::new(45, 1)
            } else {
                ratio
            }
        } else {
            Dec::new(35, 1)
        };
        GrowthStrategy { target_worker_to_house_ratio: target_ratio, house_buffer }
    }

    /// A target of 3.5 workers per unit of capacity and a buffer of 2.
    pub fn default_strategy() -> (r: Self)
        ensures
            r.target_worker_to_house_ratio == (Dec { mantissa: 35, scale: 1 }),
            r.house_buffer == 2,
    {
        GrowthStrategy { target_worker_to_house_ratio: Dec::new(35, 1), house_buffer: 2 }
    }
}

impl Strategy for GrowthStrategy {
    open spec fn accepts(&self, village: VillageState, market: MarketState) -> bool {
        &&& state_ok(village, market)
        &&& self.target_worker_to_house_ratio.wf()
        &&& days_of_food(village) < 30 && village.money.v() > 30 * unit() ==> 30 * (village.workers as u32)
            <= u32::MAX
    }

    fn decide_allocation_and_orders(&self, village: &VillageState, market: &MarketState) -> (r:
        StrategyDecision)
        ensures
            r == growth_decision(*self, *village, *market),
    {
        proof {
            lemma_unit();
        }
        let worker_days = village.worker_days;
        let houses = if village.houses > 1 {
            village.houses
        } else {
            1
        };
        let workers = count_dec(village.workers);
        let places = count_dec(houses);
        proof {
            assert(abs_int(workers.v()) <= (MAX_MANTISSA - 1) * abs_int(places.v())) by (nonlinear_arith)
                requires
                    workers.v() == village.workers * unit(),
                    places.v() == houses * unit(),
                    village.workers <= 1000000000,
                    houses >= 1,
                    unit() > 0,
            ;
        }
        let current_ratio = dec_div(workers, places);
        let available_slots = if village.house_capacity > village.workers {
            village.house_capacity - village.workers
        } else {
            0
        };
        let need_houses = current_ratio.gt(&self.target_worker_to_house_ratio)
            || available_slots < self.house_buffer;
        let allocation = if need_houses {
            WorkerAllocation {
                wood: mul_sized(worker_days, Dec::new(3, 1)),
                food: mul_sized(worker_days, Dec::new(5, 1)),
                construction: mul_sized(worker_days, Dec::new(2, 1)),
            }
        } else {
            WorkerAllocation {
                wood: mul_sized(worker_days, Dec::new(4, 1)),
                food: mul_sized(worker_days, Dec::new(6, 1)),
                construction: Dec::new(0, 0),
            }
        };
        let mut wood_bid = None;
        let mut wood_ask = None;
        let mut food_bid = None;
        if need_houses && village.wood.lt(&Dec::new(30, 0)) && village.money.gt(&Dec::new(50, 0)) {
            let urgency_multiplier = if available_slots < self.house_buffer {
                Dec::new(13, 1)
            } else {
                Dec::new(12, 1)
            };
            let price = calculate_price(market.last_wood_price, true, urgency_multiplier);
            wood_bid = Some((price, 20u32));
        }
        let food_days = calculate_resource_days(village.food, workers);
        if food_days < 30 && village.money.gt(&Dec::new(30, 0)) {
            let quantity = min_of(30 * village.workers as u32, 100);
            let price = calculate_price(market.last_food_price, false, Dec::new(115, 2));
            food_bid = Some((price, quantity));
        }
        if village.wood.gt(&Dec::new(100, 0)) && !need_houses {
            let price = calculate_price(market.last_wood_price, true, Dec::new(85, 2));
            wood_ask = Some((price, 20u32));
        }
        StrategyDecision { allocation, wood_bid, wood_ask, food_bid, food_ask: None }
    }

    fn name(&self) -> (r: &str)
        ensures
            r@ == "Growth"@,
    {
        "Growth"
    }
}

/// How urgent a resource is: `1 / (1 + days / half_life)`, one with nothing
/// in stock and falling as the supply lasts longer.
pub open spec fn urgency(days: u32, half_life: Dec) -> Dec {
    decimal_quotient(
        Dec { mantissa: 1, scale: 0 },
        decimal_sum(Dec { mantissa: 1, scale: 0 }, decimal_quotient(whole(days as int), half_life)),
    )
}

/// Balanced's needs: food and wood urgency times their weights; the need
/// for new houses (0.3 when workers outnumber places, else 0.1, times the
/// construction weight) and for repairs (0.02 per house times the repair
/// weight, at most 0.2); and their total.
pub open spec fn balanced_needs(s: BalancedStrategy, v: VillageState) -> (Dec, Dec, Dec, Dec) {
    let food_urgency = decimal_product(urgency(days_of_food(v), Dec { mantissa: 10, scale: 0 }), s.food_weight);
    let wood_urgency = decimal_product(urgency(days_of_wood(v), Dec { mantissa: 20, scale: 0 }), s.wood_weight);
    let new_house_need = decimal_product(
        if v.workers > v.house_capacity {
            Dec { mantissa: 3, scale: 1 }
        } else {
            Dec { mantissa: 1, scale: 1 }
        },
        s.construction_weight,
    );
    let repair_need = dmin(
        decimal_product(decimal_product(whole(v.houses as int), Dec { mantissa: 2, scale: 2 }), s.repair_weight),
        Dec { mantissa: 2, scale: 1 },
    );
    let construction_need = decimal_sum(new_house_need, repair_need);
    let total = decimal_sum(decimal_sum(food_urgency, wood_urgency), construction_need);
    (food_urgency, wood_urgency, construction_need, total)
}

/// Balanced's decision: worker-days in proportion to the needs; buy up to 15
/// days of food (at most 50) or wood (at most 20) at 1.05 times the price
/// when below that; above 30 days, sell half the excess over 20 days (at most
/// 50 food or 20 wood) at 0.95 times the price.
pub open spec fn balanced_allocation(s: BalancedStrategy, v: VillageState) -> WorkerAllocation {
    let (fu, wu, cn, total) = balanced_needs(s, v);
    let wd = v.worker_days;
    WorkerAllocation {
        food: decimal_product(wd, decimal_quotient(fu, total)),
        wood: decimal_product(wd, decimal_quotient(wu, total)),
        construction: decimal_product(wd, decimal_quotient(cn, total)),
    }
}

/// Balanced's offers: above 30 days, half the excess over 20 days (at most 50
/// food or 20 wood) at 0.95 times the price.
pub open spec fn balanced_asks_spec(v: VillageState, m: MarketState) -> (Option<(Dec, u32)>, Option<(Dec, u32)>) {
    let fpd = whole(v.workers as int);
    let wpd = decimal_product(whole(v.houses as int), Dec { mantissa: 1, scale: 1 });
    let food_q = min_u32(
        whole_u32(
            decimal_product(
                decimal_difference(v.food, decimal_product(Dec { mantissa: 20, scale: 0 }, fpd)),
                Dec { mantissa: 5, scale: 1 },
            ),
        ) as int,
        50,
    );
    let food_ask = if days_of_food(v) > 30 && food_q > 0 {
        Some((quoted(m.last_food_price, default_price(false), Dec { mantissa: 95, scale: 2 }), food_q))
    } else {
        None
    };
    let wood_q = min_u32(
        whole_u32(
            decimal_product(
                decimal_difference(v.wood, decimal_product(Dec { mantissa: 20, scale: 0 }, wpd)),
                Dec { mantissa: 5, scale: 1 },
            ),
        ) as int,
        20,
    );
    let wood_ask = if days_of_wood(v) > 30 && wood_q > 0 {
        Some((quoted(m.last_wood_price, default_price(true), Dec { mantissa: 95, scale: 2 }), wood_q))
    } else {
        None
    };
    (food_ask, wood_ask)
}

/// Balanced's decision: worker-days in proportion to the needs; buy up to 15
/// days of food (at most 50) or wood (at most 20) at 1.05 times the price
/// when below that; sell as `balanced_asks_spec` says.
pub open spec fn balanced_decision(s: BalancedStrategy, v: VillageState, m: MarketState) -> StrategyDecision {
    let fd = days_of_food(v);
    let wdd = days_of_wood(v);
    let thirty = 30 * unit();
    let food_bid = if fd < 15 && v.money.v() > thirty {
        Some(
            (
                quoted(m.last_food_price, default_price(false), Dec { mantissa: 105, scale: 2 }),
                min_u32((15 - fd) * (v.workers as u32), 50),
            ),
        )
    } else {
        None
    };
    let wood_bid = if wdd < 15 && v.money.v() > thirty {
        Some(
            (
                quoted(m.last_wood_price, default_price(true), Dec { mantissa: 105, scale: 2 }),
                min_u32(15 - wdd, 20),
            ),
        )
    } else {
        None
    };
    let (food_ask, wood_ask) = balanced_asks_spec(v, m);
    StrategyDecision { allocation: balanced_allocation(s, v), wood_bid, wood_ask, food_bid, food_ask }
}

/// The weights are modest and the proportions stay in range.
pub open spec fn balanced_ok(s: BalancedStrategy, v: VillageState) -> bool {
    let (fu, wu, cn, total) = balanced_needs(s, v);
    &&& modest(s.food_weight)
    &&& modest(s.wood_weight)
    &&& modest(s.construction_weight)
    &&& modest(s.repair_weight)
    &&& proportion_ok(v.worker_days, fu, total)
    &&& proportion_ok(v.worker_days, wu, total)
    &&& proportion_ok(v.worker_days, cn, total)
}

/// Weighs each need by how urgent it is.
pub struct BalancedStrategy {
    pub food_weight: Dec,
    pub wood_weight: Dec,
    pub construction_weight: Dec,
    pub repair_weight: Dec,
}

impl BalancedStrategy {
    pub fn new(food_weight: Dec, wood_weight: Dec, construction_weight: Dec, repair_weight: Dec) -> (r:
        Self)
        ensures
            r.food_weight == food_weight,
            r.wood_weight == wood_weight,
            r.construction_weight == construction_weight,
            r.repair_weight == repair_weight,
    {
        BalancedStrategy { food_weight, wood_weight, construction_weight, repair_weight }
    }

    /// Every weight 0.25.
    pub fn default_strategy() -> (r: Self)
        ensures
            r.food_weight == (Dec { mantissa: 25, scale: 2 }),
            r.wood_weight == (Dec { mantissa: 25, scale: 2 }),
            r.construction_weight == (Dec { mantissa: 25, scale: 2 }),
            r.repair_weight == (Dec { mantissa: 25, scale: 2 }),
    {
        BalancedStrategy {
            food_weight: Dec::new(25, 2),
            wood_weight: Dec::new(25, 2),
            construction_weight: Dec::new(25, 2),
            repair_weight: Dec::new(25, 2),
        }
    }
}

/// `1 / (1 + days / half_life)`.
fn calculate_resource_urgency(days_of_supply: u32, half_life_days: Dec) -> (r: Dec)
    requires
        half_life_days.wf(),
        unit() <= half_life_days.v() <= 100 * unit(),
    ensures
        r == urgency(days_of_supply, half_life_days),
        r.wf(),
        0 <= r.v() <= 3 * unit(),
{
    proof {
        lemma_unit();
    }
    let days = Dec::from_u32(days_of_supply);
    let ghost u = unit();
    let ghost d = days.v();
    let ghost h = half_life_days.v();
    proof {
        assert(abs_int(d) <= (MAX_MANTISSA - 1) * abs_int(h)) by (nonlinear_arith)
            requires
                d == days_of_supply * u,
                days_of_supply <= 4294967295,
                h >= u,
                u > 0,
        ;
    }
    let ratio = dec_div(days, half_life_days);
    let ghost q = ratio.v();
    proof {
        lemma_v_sign(ratio);
        lemma_quotient_size(days, half_life_days, ratio);
        assert(0 <= d <= 4294967295 * u);
        assert(d * u <= d * h) by (nonlinear_arith)
            requires
                d >= 0,
                u <= h,
        ;
        assert(abs_int(q) <= d + u) by (nonlinear_arith)
            requires
                abs_int(q) * h <= d * u + h * u,
                d * u <= d * h,
                h > 0,
        ;
        let e = abs_int(q) / 1000000000000000000000000000;
        assert(e <= 50000000000);
        assert(2 * (d * u - q * h) <= h * (1 + e)) by (nonlinear_arith)
            requires
                2 * abs_int(q * h - d * u) <= abs_int(h) * (1 + e),
                h > 0,
        ;
        assert(q >= -50000000001) by (nonlinear_arith)
            requires
                2 * (d * u - q * h) <= h * (1 + e),
                d * u >= 0,
                0 <= e <= 50000000000,
                h > 0,
        ;
    }
    let one = Dec::new(1, 0);
    let sum = dec_add(one, ratio);
    let ghost t = sum.v();
    proof {
        lemma_v_sign(sum);
        assert(t >= u / 2 - 50000000001);
        assert(t <= 4294967298 * u);
    }
    let r = dec_div(one, sum);
    proof {
        lemma_v_sign(r);
        let x = r.v();
        assert(2 * (x * t - u * u) <= t * u) by (nonlinear_arith)
            requires
                2 * abs_int(x * t - one.v() * u) <= abs_int(t) * r.ulp(),
                one.v() == u,
                r.ulp() <= u,
                t > 0,
        ;
        assert(2 * (u * u - x * t) <= t * u) by (nonlinear_arith)
            requires
                2 * abs_int(x * t - one.v() * u) <= abs_int(t) * r.ulp(),
                one.v() == u,
                r.ulp() <= u,
                t > 0,
        ;
        assert(x <= 3 * u) by (nonlinear_arith)
            requires
                2 * (x * t - u * u) <= t * u,
                t >= u / 2 - 50000000001,
                u == 10000000000000000000000000000,
        ;
        assert(x >= -u) by (nonlinear_arith)
            requires
                2 * (u * u - x * t) <= t * u,
                t > 0,
                u > 0,
        ;
        let e = abs_int(x) / 1000000000000000000000000000;
        assert(e <= 30);
        assert(2 * (u * u - x * t) <= t * (1 + e)) by (nonlinear_arith)
            requires
                2 * abs_int(x * t - one.v() * u) <= abs_int(t) * (1 + e),
                one.v() == u,
                t > 0,
        ;
        assert(x >= 0) by (nonlinear_arith)
            requires
                2 * (u * u - x * t) <= t * (1 + e),
                0 <= e <= 30,
                0 < t <= 4294967298 * u,
                u == 10000000000000000000000000000,
        ;
    }
    r
}

/// Dividing `x` by the total and scaling the worker-days by the quotient
/// stays in range.
pub open spec fn proportion_ok(wd: Dec, x: Dec, total: Dec) -> bool {
    &&& total.v() != 0
    &&& abs_int(x.v()) <= (MAX_MANTISSA - 1) * abs_int(total.v())
    &&& abs_int(wd.v() * decimal_quotient(x, total).v()) <= limit() * unit()
}

/// `worker_days * (x / total)`.
fn proportion(worker_days: Dec, x: Dec, total: Dec) -> (r: Dec)
    requires
        worker_days.wf(),
        x.wf(),
        total.wf(),
        proportion_ok(worker_days, x, total),
    ensures
        r == decimal_product(worker_days, decimal_quotient(x, total)),
{
    let q = dec_div(x, total);
    dec_mul(worker_days, q)
}

impl BalancedStrategy {
    /// The needs: food and wood urgency, construction, and their total.
    fn needs(&self, village: &VillageState, food_days: u32, wood_days: u32) -> (r: (Dec, Dec, Dec, Dec))
        requires
            state_ok(*village, MarketState { last_wood_price: None, last_food_price: None }),
            modest(self.food_weight),
            modest(self.wood_weight),
            modest(self.construction_weight),
            modest(self.repair_weight),
            food_days == days_of_food(*village),
            wood_days == days_of_wood(*village),
        ensures
            r == balanced_needs(*self, *village),
            r.0.wf(),
            r.1.wf(),
            r.2.wf(),
            r.3.wf(),
            abs_int(r.0.v()) <= 3000001 * unit(),
            abs_int(r.1.v()) <= 3000001 * unit(),
            abs_int(r.2.v()) <= 100000000000003000004 * unit(),
            abs_int(r.3.v()) <= 100000000000009000008 * unit(),
    {
        proof {
            lemma_unit();
        }
        let food_urgency = mul_small(calculate_resource_urgency(food_days, Dec::new(10, 0)), self.food_weight);
        let wood_urgency = mul_small(calculate_resource_urgency(wood_days, Dec::new(20, 0)), self.wood_weight);
        let new_house_need = if village.workers > village.house_capacity {
            mul_small(Dec::new(3, 1), self.construction_weight)
        } else {
            mul_small(Dec::new(1, 1), self.construction_weight)
        };
        let houses = count_dec(village.houses);
        let two_hundredths = Dec::new(2, 2);
        let per_house = mul_counts(houses, two_hundredths);
        proof {
            assert(pow10(26) * 100 == unit()) by {
                reveal_with_fuel(pow10, 29);
            }
            assert(two_hundredths.v() == 2 * pow10(26));
            lemma_abs_mul_le(houses.v(), two_hundredths.v(), 1000000000 * unit(), unit());
            assert(abs_int(per_house.v()) <= 1000000000 * unit() + unit()) by (nonlinear_arith)
                requires
                    abs_int(per_house.v()) * unit() <= abs_int(houses.v() * two_hundredths.v()) + unit()
                        * unit(),
                    abs_int(houses.v() * two_hundredths.v()) <= (1000000000 * unit()) * unit(),
                    unit() > 0,
            ;
        }
        let repair_need = mul_sized(per_house, self.repair_weight).min(Dec::new(2, 1));
        proof {
            lemma_v_sign(repair_need);
        }
        let construction_need = dec_add(new_house_need, repair_need);
        proof {
            lemma_rounded_size(new_house_need.v() + repair_need.v(), construction_need);
        }
        let urgent = dec_add(food_urgency, wood_urgency);
        proof {
            lemma_rounded_size(food_urgency.v() + wood_urgency.v(), urgent);
        }
        let total = dec_add(urgent, construction_need);
        proof {
            lemma_rounded_size(urgent.v() + construction_need.v(), total);
        }
        (food_urgency, wood_urgency, construction_need, total)
    }

    /// Worker-days in proportion to the needs.
    fn allocate(&self, village: &VillageState, food_days: u32, wood_days: u32) -> (r: WorkerAllocation)
        requires
            state_ok(*village, MarketState { last_wood_price: None, last_food_price: None }),
            balanced_ok(*self, *village),
            food_days == days_of_food(*village),
            wood_days == days_of_wood(*village),
        ensures
            r == balanced_allocation(*self, *village),
    {
        let worker_days = village.worker_days;
        let (food_urgency, wood_urgency, construction_need, total) = self.needs(village, food_days, wood_days);
        WorkerAllocation {
            food: proportion(worker_days, food_urgency, total),
            wood: proportion(worker_days, wood_urgency, total),
            construction: proportion(worker_days, construction_need, total),
        }
    }
}

/// Balanced's offers to sell, food then wood.
fn balanced_asks(
    village: &VillageState,
    market: &MarketState,
    food_days: u32,
    wood_days: u32,
    food_per_day: Dec,
    wood_per_day: Dec,
) -> (r: (Option<(Dec, u32)>, Option<(Dec, u32)>))
    requires
        state_ok(*village, *market),
        food_days == days_of_food(*village),
        wood_days == days_of_wood(*village),
        food_per_day == whole(village.workers as int),
        wood_per_day == decimal_product(whole(village.houses as int), Dec { mantissa: 1, scale: 1 }),
        wood_per_day.v() * 10 == village.houses * unit(),
        food_per_day.v() == village.workers * unit(),
        wood_per_day.wf(),
        food_per_day.wf(),
    ensures
        r == balanced_asks_spec(*village, *market),
{
    proof {
        lemma_unit();
    }
    let mut food_ask = None;
    let mut wood_ask = None;
        if food_days > 30 {
            let twenty = Dec::new(20, 0);
            let reserve = mul_counts(twenty, food_per_day);
            proof {
                lemma_abs_mul_le(twenty.v(), food_per_day.v(), 20 * unit(), 1000000000 * unit());
                assert(abs_int(reserve.v()) <= 20000000001 * unit()) by (nonlinear_arith)
                    requires
                        abs_int(reserve.v()) * unit() <= abs_int(twenty.v() * food_per_day.v()) + unit()
                            * unit(),
                        abs_int(twenty.v() * food_per_day.v()) <= (20 * unit()) * (1000000000 * unit()),
                        unit() > 0,
                ;
            }
            let excess = dec_sub(village.food, reserve);
            proof {
                lemma_rounded_size(village.food.v() - reserve.v(), excess);
            }
            let quantity = min_of(whole_or_zero(&mul_any(excess, Dec::new(5, 1))), 50);
            if quantity > 0 {
                let price = calculate_price(market.last_food_price, false, Dec::new(95, 2));
                food_ask = Some((price, quantity));
            }
        }
        if wood_days > 30 {
            let twenty = Dec::new(20, 0);
            let reserve = mul_counts(twenty, wood_per_day);
            proof {
                lemma_abs_mul_le(twenty.v(), wood_per_day.v(), 20 * unit(), 1000000000 * unit());
                assert(abs_int(reserve.v()) <= 20000000001 * unit()) by (nonlinear_arith)
                    requires
                        abs_int(reserve.v()) * unit() <= abs_int(twenty.v() * wood_per_day.v()) + unit()
                            * unit(),
                        abs_int(twenty.v() * wood_per_day.v()) <= (20 * unit()) * (1000000000 * unit()),
                        unit() > 0,
                ;
            }
            let excess = dec_sub(village.wood, reserve);
            proof {
                lemma_rounded_size(village.wood.v() - reserve.v(), excess);
            }
            let quantity = min_of(whole_or_zero(&mul_any(excess, Dec::new(5, 1))), 20);
            if quantity > 0 {
                let price = calculate_price(market.last_wood_price, true, Dec::new(95, 2));
                wood_ask = Some((price, quantity));
            }
        }
    (food_ask, wood_ask)
}

impl Strategy for BalancedStrategy {
    open spec fn accepts(&self, village: VillageState, market: MarketState) -> bool {
        &&& state_ok(village, market)
        &&& balanced_ok(*self, village)
        &&& days_of_food(village) < 15 && village.money.v() > 30 * unit() ==> (15 - days_of_food(village))
            * (village.workers as u32) <= u32::MAX
    }

    fn decide_allocation_and_orders(&self, village: &VillageState, market: &MarketState) -> (r:
        StrategyDecision)
        ensures
            r == balanced_decision(*self, *village, *market),
    {
        proof {
            lemma_unit();
        }
        let worker_days = village.worker_days;
        let food_per_day = count_dec(village.workers);
        let wood_per_day = house_upkeep(village.houses);
        let food_days = calculate_resource_days(village.food, food_per_day);
        let wood_days = calculate_resource_days(village.wood, wood_per_day);
        proof {
            assert(state_ok(*village, MarketState { last_wood_price: None, last_food_price: None }));
        }
        let allocation = self.allocate(village, food_days, wood_days);
        let thirty = Dec::new(30, 0);
        let mut wood_bid = None;
        let mut food_bid = None;
        if food_days < 15 && village.money.gt(&thirty) {
            let quantity = min_of((15 - food_days) * village.workers as u32, 50);
            let price = calculate_price(market.last_food_price, false, Dec::new(105, 2));
            food_bid = Some((price, quantity));
        }
        if wood_days < 15 && village.money.gt(&thirty) {
            let quantity = min_of(15 - wood_days, 20);
            let price = calculate_price(market.last_wood_price, true, Dec::new(105, 2));
            wood_bid = Some((price, quantity));
        }
        let (food_ask, wood_ask) = balanced_asks(village, market, food_days, wood_days, food_per_day, wood_per_day);
        StrategyDecision { allocation, wood_bid, wood_ask, food_bid, food_ask }
    }

    fn name(&self) -> (r: &str)
        ensures
            r@ == "Balanced"@,
    {
        "Balanced"
    }
}

/// The product of a value of magnitude at most 3 and a modest one.
fn mul_small(a: Dec, b: Dec) -> (r: Dec)
    requires
        a.wf(),
        abs_int(a.v()) <= 3 * unit(),
        modest(b),
    ensures
        r == decimal_product(a, b),
        r.wf(),
        abs_int(r.v()) <= 3000001 * unit(),
{
    proof {
        lemma_unit();
        lemma_abs_mul_le(a.v(), b.v(), 3 * unit(), 1000000 * unit());
        assert((3 * unit()) * (1000000 * unit()) <= limit() * unit()) by (nonlinear_arith)
            requires
                unit() == 10000000000000000000000000000,
                limit() == (MAX_MANTISSA - 1) * unit(),
        ;
    }
    let r = dec_mul(a, b);
    proof {
        lemma_product_size(a, b, r);
        assert(abs_int(r.v()) <= 3000001 * unit()) by (nonlinear_arith)
            requires
                abs_int(r.v()) * unit() <= abs_int(a.v() * b.v()) + unit() * unit(),
                abs_int(a.v() * b.v()) <= (3 * unit()) * (1000000 * unit()),
                unit() == 10000000000000000000000000000,
        ;
    }
    r
}

/// One of the strategies.
pub enum StrategyKind {
    Survival(SurvivalStrategy),
    Growth(GrowthStrategy),
    Trading(TradingStrategy),
    Balanced(BalancedStrategy),
    Greedy(GreedyStrategy),
    Default(DefaultStrategy),
}

impl StrategyKind {
    pub open spec fn accepts_spec(&self, village: VillageState, market: MarketState) -> bool {
        match self {
            StrategyKind::Survival(s) => s.accepts(village, market),
            StrategyKind::Growth(s) => s.accepts(village, market),
            StrategyKind::Trading(s) => s.accepts(village, market),
            StrategyKind::Balanced(s) => s.accepts(village, market),
            StrategyKind::Greedy(s) => s.accepts(village, market),
            StrategyKind::Default(s) => s.accepts(village, market),
        }
    }

    /// What the strategy decides.
    pub open spec fn decision(&self, village: VillageState, market: MarketState) -> StrategyDecision {
        match self {
            StrategyKind::Survival(s) => survival_decision(*s, village, market),
            StrategyKind::Growth(s) => growth_decision(*s, village, market),
            StrategyKind::Trading(s) => trading_decision(*s, village, market),
            StrategyKind::Balanced(s) => balanced_decision(*s, village, market),
            StrategyKind::Greedy(_) => greedy_decision(village, market),
            StrategyKind::Default(_) => no_orders(fixed_shares(village.worker_days)),
        }
    }

    pub fn decide_allocation_and_orders(&self, village: &VillageState, market: &MarketState) -> (r:
        StrategyDecision)
        requires
            self.accepts_spec(*village, *market),
        ensures
            r == self.decision(*village, *market),
    {
        match self {
            StrategyKind::Survival(s) => s.decide_allocation_and_orders(village, market),
            StrategyKind::Growth(s) => s.decide_allocation_and_orders(village, market),
            StrategyKind::Trading(s) => s.decide_allocation_and_orders(village, market),
            StrategyKind::Balanced(s) => s.decide_allocation_and_orders(village, market),
            StrategyKind::Greedy(s) => s.decide_allocation_and_orders(village, market),
            StrategyKind::Default(s) => s.decide_allocation_and_orders(village, market),
        }
    }

    /// The strategy's name.
    pub fn name(&self) -> (r: &str)
        ensures
            r@ == match self {
                StrategyKind::Survival(_) => "Survival"@,
                StrategyKind::Growth(_) => "Growth"@,
                StrategyKind::Trading(_) => "Trading"@,
                StrategyKind::Balanced(_) => "Balanced"@,
                StrategyKind::Greedy(_) => "Greedy"@,
                StrategyKind::Default(_) => "Default"@,
            },
    {
        match self {
            StrategyKind::Survival(s) => s.name(),
            StrategyKind::Growth(s) => s.name(),
            StrategyKind::Trading(s) => s.name(),
            StrategyKind::Balanced(s) => s.name(),
            StrategyKind::Greedy(s) => s.name(),
            StrategyKind::Default(s) => s.name(),
        }
    }
}

/// The strategy that a scenario configures, with its parameters.
pub fn create_strategy(config: &StrategyConfig) -> (r: StrategyKind)
    ensures
        match *config {
            StrategyConfig::Balanced { food_weight, wood_weight, construction_weight, repair_weight } => r
                == StrategyKind::Balanced(
                BalancedStrategy { food_weight, wood_weight, construction_weight, repair_weight },
            ),
            StrategyConfig::Survival { min_food_days, min_shelter_buffer } => r == StrategyKind::Survival(
                SurvivalStrategy {
                    min_food_days: min_food_days as u32,
                    min_wood_days: min_shelter_buffer as u32,
                },
            ),
            StrategyConfig::Growth { target_population, house_buffer } => r == StrategyKind::Growth(
                GrowthStrategy {
                    target_worker_to_house_ratio: growth_ratio(target_population, house_buffer),
                    house_buffer,
                },
            ),
            StrategyConfig::Trading { price_multiplier, max_trade_fraction } => r
                == StrategyKind::Trading(TradingStrategy { price_multiplier, max_trade_fraction }),
        },
{
    match config {
        StrategyConfig::Balanced { food_weight, wood_weight, construction_weight, repair_weight } => {
            StrategyKind::Balanced(
                BalancedStrategy::new(*food_weight, *wood_weight, *construction_weight, *repair_weight),
            )
        },
        StrategyConfig::Survival { min_food_days, min_shelter_buffer } => {
            #[verifier::truncate]
            let food = *min_food_days as u32;
            #[verifier::truncate]
            let shelter = *min_shelter_buffer as u32;
            StrategyKind::Survival(SurvivalStrategy::new(food, shelter))
        },
        StrategyConfig::Growth { target_population, house_buffer } => {
            StrategyKind::Growth(GrowthStrategy::new(*target_population, *house_buffer))
        },
        StrategyConfig::Trading { price_multiplier, max_trade_fraction } => {
            StrategyKind::Trading(TradingStrategy::new(*price_multiplier, *max_trade_fraction))
        },
    }
}

/// The result of `str::to_lowercase`.
pub uninterp spec fn lowercased(s: Seq<char>) -> Seq<char>;

/// Calls `str::to_lowercase`, which maps each character to its lower case as
/// Unicode defines it; the result is named, not stated.
#[verifier::external_body]
fn lowercase(s: &str) -> (r: String)
    ensures
        r@ == lowercased(s@),
{
    s.to_lowercase()
}

/// The strategy with the given name, in any case, with its default
/// parameters; the default strategy for an unknown name.
pub fn create_strategy_by_name(name: &str) -> (r: StrategyKind)
    ensures
        lowercased(name@) == "survival"@ ==> r == StrategyKind::Survival(
            SurvivalStrategy { min_food_days: 20, min_wood_days: 10 },
        ),
        lowercased(name@) == "growth"@ ==> r == StrategyKind::Growth(
            GrowthStrategy { target_worker_to_house_ratio: Dec { mantissa: 35, scale: 1 }, house_buffer: 2 },
        ),
        lowercased(name@) == "trading"@ ==> r == StrategyKind::Trading(
            TradingStrategy {
                price_multiplier: Dec { mantissa: 10, scale: 1 },
                max_trade_fraction: Dec { mantissa: 3, scale: 1 },
            },
        ),
        lowercased(name@) == "balanced"@ ==> r == StrategyKind::Balanced(
            BalancedStrategy {
                food_weight: Dec { mantissa: 25, scale: 2 },
                wood_weight: Dec { mantissa: 25, scale: 2 },
                construction_weight: Dec { mantissa: 25, scale: 2 },
                repair_weight: Dec { mantissa: 25, scale: 2 },
            },
        ),
        lowercased(name@) == "greedy"@ ==> r == StrategyKind::Greedy(GreedyStrategy),
        lowercased(name@) != "survival"@ && lowercased(name@) != "growth"@ && lowercased(name@)
            != "trading"@ && lowercased(name@) != "balanced"@ && lowercased(name@) != "greedy"@ ==> r
            == StrategyKind::Default(DefaultStrategy),
{
    let lowered = lowercase(name);
    proof {
        reveal_strlit("survival");
        reveal_strlit("growth");
        reveal_strlit("trading");
        reveal_strlit("balanced");
        reveal_strlit("greedy");
        assert("survival"@[0] == 's' && "growth"@[0] == 'g' && "trading"@[0] == 't' && "balanced"@[0]
            == 'b' && "greedy"@[0] == 'g');
        assert("growth"@[2] == 'o' && "greedy"@[2] == 'e');
    }
    if lowered == String::from_str("survival") {
        StrategyKind::Survival(SurvivalStrategy::default_strategy())
    } else if lowered == String::from_str("growth") {
        StrategyKind::Growth(GrowthStrategy::default_strategy())
    } else if lowered == String::from_str("trading") {
        StrategyKind::Trading(TradingStrategy::default_strategy())
    } else if lowered == String::from_str("balanced") {
        StrategyKind::Balanced(BalancedStrategy::default_strategy())
    } else if lowered == String::from_str("greedy") {
        StrategyKind::Greedy(GreedyStrategy)
    } else {
        StrategyKind::Default(DefaultStrategy)
    }
}

/// Trading's bounds, with the last food price, when positive, at least
/// `10^-16`, which keeps the ratio of the prices in range.
pub open spec fn trading_guard(s: TradingStrategy, v: VillageState, m: MarketState) -> bool {
    &&& state_ok(v, m)
    &&& modest(s.price_multiplier)
    &&& modest(s.max_trade_fraction)
    &&& v.food_slots.0 + v.food_slots.1 <= u32::MAX
    &&& v.wood_slots.0 + v.wood_slots.1 <= u32::MAX
    &&& days_of_food(v) < 10 && v.money.v() > 20 * unit() ==> (15 - days_of_food(v)) * (v.workers as u32)
        <= u32::MAX
    &&& match (m.last_wood_price, m.last_food_price) {
        (Some(_), Some(f)) => f.v() > 0 ==> f.v() >= 1000000000000,
        _ => true,
    }
}

impl StrategyKind {
    /// The inputs on which [`StrategyKind::accepts_check`] says yes: the
    /// strategy's own bounds, with room to spare where the range of a
    /// quotient has to be checked.
    pub open spec fn guarded(&self, village: VillageState, market: MarketState) -> bool {
        match self {
            StrategyKind::Survival(s) => survival_guard(*s, village, market),
            StrategyKind::Growth(s) => s.accepts(village, market),
            StrategyKind::Trading(s) => trading_guard(*s, village, market),
            StrategyKind::Balanced(s) => balanced_guard(*s, village, market),
            StrategyKind::Greedy(s) => s.accepts(village, market),
            StrategyKind::Default(s) => s.accepts(village, market),
        }
    }

    /// Whether the strategy can decide on these inputs with its arithmetic
    /// in range.
    #[verifier::spinoff_prover]
    pub fn accepts_check(&self, village: &VillageState, market: &MarketState) -> (r: bool)
        ensures
            r == self.guarded(*village, *market),
            r ==> self.accepts_spec(*village, *market),
    {
        if !state_checked(village, market) {
            return false;
        }
        match self {
            StrategyKind::Survival(s) => survival_checked(s, village, market),
            StrategyKind::Growth(s) => growth_checked(s, village, market),
            StrategyKind::Trading(s) => trading_checked(s, village, market),
            StrategyKind::Balanced(s) => balanced_checked(s, village, market),
            StrategyKind::Greedy(s) => greedy_checked(s, village, market),
            StrategyKind::Default(_) => true,
        }
    }
}

/// Whether Growth's bounds hold.
fn growth_checked(s: &GrowthStrategy, village: &VillageState, market: &MarketState) -> (r: bool)
    requires
        state_ok(*village, *market),
    ensures
        r == s.accepts(*village, *market),
{
    proof {
        lemma_unit();
    }
    if !s.target_worker_to_house_ratio.is_wf() {
        return false;
    }
    let fd = food_days_of(village);
    if fd < 30 && village.money.gt(&Dec::new(30, 0)) {
        #[verifier::truncate]
        let w: u32 = village.workers as u32;
        30 * (w as u64) <= 4294967295u64
    } else {
        true
    }
}

/// Whether Trading's bounds hold, with the last food price, when positive,
/// at least `10^-16`.
fn trading_checked(s: &TradingStrategy, village: &VillageState, market: &MarketState) -> (r: bool)
    requires
        state_ok(*village, *market),
    ensures
        r == trading_guard(*s, *village, *market),
        r ==> s.accepts(*village, *market),
{
    proof {
        lemma_unit();
    }
    if !(is_modest(&s.price_multiplier) && is_modest(&s.max_trade_fraction)) {
        return false;
    }
    if !((village.food_slots.0 as u64) + (village.food_slots.1 as u64) <= 4294967295u64 && (
    village.wood_slots.0 as u64) + (village.wood_slots.1 as u64) <= 4294967295u64) {
        return false;
    }
    let fd = food_days_of(village);
    if fd < 10 && village.money.gt(&Dec::new(20, 0)) {
        #[verifier::truncate]
        let w: u32 = village.workers as u32;
        let short: u32 = 15 - fd;
        proof {
            assert((short as u128) * (w as u128) <= 15 * 4294967295u128) by (nonlinear_arith)
                requires
                    short <= 15,
                    w <= 4294967295u128,
            ;
        }
        if !((short as u128) * (w as u128) <= 4294967295u128) {
            return false;
        }
    }
    match (market.last_wood_price, market.last_food_price) {
        (Some(w), Some(f)) => {
            proof {
                assert(pow10(12) == 1000000000000) by {
                    reveal_with_fuel(pow10, 13);
                }
                assert((Dec { mantissa: 1, scale: 16 }).v() == 1000000000000);
            }
            let r = !f.gt(&Dec::new(0, 0)) || f.ge(&Dec { mantissa: 1, scale: 16 });
            proof {
                if r && f.v() > 0 {
                    assert(abs_int(w.v()) <= (MAX_MANTISSA - 1) * f.v()) by (nonlinear_arith)
                        requires
                            abs_int(w.v()) <= 1000000000000 * unit(),
                            f.v() >= 1000000000000,
                            unit() == 10000000000000000000000000000,
                            MAX_MANTISSA == 79228162514264337593543950335,
                    ;
                }
            }
            r
        },
        _ => true,
    }
}

/// Whether Greedy's bounds hold.
fn greedy_checked(s: &GreedyStrategy, village: &VillageState, market: &MarketState) -> (r: bool)
    requires
        state_ok(*village, *market),
    ensures
        r == s.accepts(*village, *market),
{
    proof {
        lemma_unit();
    }
    if village.food.lt(&Dec::from_usize(village.workers)) && village.money.gt(&Dec::new(10, 0)) {
        #[verifier::truncate]
        let w: u32 = village.workers as u32;
        (w as u64) * 5 <= 4294967295u64
    } else {
        true
    }
}

/// Whether the decimal is well formed and at most `10^14` in magnitude.
fn is_sizable(d: &Dec) -> (r: bool)
    ensures
        r == sizable(*d),
{
    d.is_wf() && d.within_units(100000000000000)
}

/// Whether the decimal is well formed and at most `10^12` in magnitude.
fn is_price_sized(d: &Dec) -> (r: bool)
    ensures
        r == price_sized(*d),
{
    d.is_wf() && d.within_units(1000000000000)
}

/// Whether the decimal is well formed and at most `10^6` in magnitude.
fn is_modest(d: &Dec) -> (r: bool)
    ensures
        r == modest(*d),
{
    d.is_wf() && d.within_units(1000000)
}

/// Whether the village and the market are within every strategy's range.
fn state_checked(v: &VillageState, m: &MarketState) -> (r: bool)
    ensures
        r == state_ok(*v, *m),
{
    if !(is_sizable(&v.wood) && is_sizable(&v.food) && is_sizable(&v.money) && is_sizable(
        &v.worker_days,
    ) && v.workers <= 1000000000 && v.houses <= 1000000000 && v.house_capacity <= 1000000000) {
        return false;
    }
    let wood_ok = match m.last_wood_price {
        Some(p) => is_price_sized(&p),
        None => true,
    };
    let food_ok = match m.last_food_price {
        Some(p) => is_price_sized(&p),
        None => true,
    };
    wood_ok && food_ok
}

/// How many days the village's food lasts.
fn food_days_of(v: &VillageState) -> (r: u32)
    requires
        sizable(v.food),
        v.workers <= 1000000000,
    ensures
        r == days_of_food(*v),
{
    proof {
        lemma_unit();
    }
    let per_day = count_dec(v.workers);
    proof {
        assert(per_day.v() > 0 ==> abs_int(v.food.v()) <= (MAX_MANTISSA - 1) * per_day.v()) by (nonlinear_arith)
            requires
                per_day.v() == v.workers * unit(),
                abs_int(v.food.v()) <= 100000000000000 * unit(),
                unit() > 0,
                MAX_MANTISSA == 79228162514264337593543950335,
        ;
    }
    calculate_resource_days(v.food, per_day)
}

/// How many days the village's wood lasts.
fn wood_days_of(v: &VillageState) -> (r: u32)
    requires
        sizable(v.wood),
        v.houses <= 1000000000,
    ensures
        r == days_of_wood(*v),
{
    proof {
        lemma_unit();
    }
    let per_day = house_upkeep(v.houses);
    proof {
        assert(per_day.v() > 0 ==> abs_int(v.wood.v()) <= (MAX_MANTISSA - 1) * per_day.v()) by (nonlinear_arith)
            requires
                per_day.v() * 10 == v.houses * unit(),
                abs_int(v.wood.v()) <= 100000000000000 * unit(),
                unit() == 10000000000000000000000000000,
                MAX_MANTISSA == 79228162514264337593543950335,
        ;
    }
    calculate_resource_days(v.wood, per_day)
}

/// Rebalancing with its quotient checked: a nonzero denominator, a
/// numerator within `3 * 10^14` times the denominator's magnitude, and a
/// quotient of at most `10^15`.
pub open spec fn rebalance_guard(wd: Dec, food: Dec, wood: Dec) -> bool {
    let c = rebalanced_construction(wd, food, wood);
    let numerator = decimal_product(food, decimal_difference(wd, c));
    let denominator = decimal_sum(food, wood);
    &&& denominator.v() != 0
    &&& abs_int(numerator.v()) <= decimal_product(dabs(denominator), Dec { mantissa: 300000000000000, scale: 0 }).v()
    &&& abs_int(rebalanced_food(wd, food, wood).v()) <= 1000000000000000 * unit()
}

/// Survival's bounds, with the rebalancing's quotient checked.
pub open spec fn survival_guard(s: SurvivalStrategy, v: VillageState, m: MarketState) -> bool {
    let fd = days_of_food(v);
    let wd = days_of_wood(v);
    let (food, wood) = survival_split(s, v);
    &&& state_ok(v, m)
    &&& s.min_food_days <= 1000000000
    &&& s.min_wood_days <= 1000000000
    &&& fd < 10 && v.money.v() > 20 * unit() ==> fd <= s.min_food_days && (s.min_food_days - fd) * (
    v.workers as u32) <= u32::MAX
    &&& wd < 10 && v.money.v() > 20 * unit() ==> wd < s.min_wood_days
    &&& survival_builds(s, v) ==> rebalance_guard(v.worker_days, food, wood)
}

/// A share of the worker-days with its quotient checked: a nonzero total,
/// the need within `10^8` times the total's magnitude, and a quotient of at
/// most `10^8`.
pub open spec fn proportion_guard(x: Dec, total: Dec) -> bool {
    &&& total.v() != 0
    &&& abs_int(x.v()) <= decimal_product(dabs(total), Dec { mantissa: 100000000, scale: 0 }).v()
    &&& abs_int(decimal_quotient(x, total).v()) <= 100000000 * unit()
}

/// Balanced's bounds, with the quotients of its shares checked.
pub open spec fn balanced_guard(s: BalancedStrategy, v: VillageState, m: MarketState) -> bool {
    let (fu, wu, cn, total) = balanced_needs(s, v);
    &&& state_ok(v, m)
    &&& modest(s.food_weight)
    &&& modest(s.wood_weight)
    &&& modest(s.construction_weight)
    &&& modest(s.repair_weight)
    &&& proportion_guard(fu, total)
    &&& proportion_guard(wu, total)
    &&& proportion_guard(cn, total)
    &&& days_of_food(v) < 15 && v.money.v() > 30 * unit() ==> (15 - days_of_food(v)) * (v.workers as u32)
        <= u32::MAX
}

/// Whether the rebalancing's quotient is in range, worked out as the
/// rebalancing works it out.
#[verifier::spinoff_prover]
#[verifier::rlimit(50)]
fn rebalance_checked(worker_days: Dec, food: Dec, wood: Dec) -> (r: bool)
    requires
        sizable(worker_days),
        food.wf(),
        wood.wf(),
        abs_int(food.v()) <= abs_int(worker_days.v()) + unit(),
        abs_int(wood.v()) <= abs_int(worker_days.v()) + unit(),
    ensures
        r == rebalance_guard(worker_days, food, wood),
        r ==> rebalance_ok(worker_days, food, wood),
{
    proof {
        lemma_unit();
    }
    let tenth = mul_any(worker_days, Dec::new(1, 1));
    proof {
        lemma_v_sign(Dec { mantissa: 1, scale: 1 });
        lemma_abs_mul_le(worker_days.v(), (Dec { mantissa: 1, scale: 1 }).v(), abs_int(worker_days.v()), unit());
        assert(abs_int(tenth.v()) <= abs_int(worker_days.v()) + unit()) by (nonlinear_arith)
            requires
                abs_int(tenth.v()) * unit() <= abs_int(worker_days.v() * (Dec { mantissa: 1, scale: 1 }).v())
                    + unit() * unit(),
                abs_int(worker_days.v() * (Dec { mantissa: 1, scale: 1 }).v()) <= abs_int(worker_days.v()) * unit(),
                unit() > 0,
        ;
    }
    let construction = tenth;
    let rest = dec_sub(worker_days, construction);
    proof {
        lemma_rounded_size(worker_days.v() - construction.v(), rest);
        let w = abs_int(worker_days.v());
        assert(abs_int(rest.v()) <= 4 * w + 5 * unit());
        assert(abs_int(food.v()) <= w + unit());
        lemma_abs_mul_le(food.v(), rest.v(), w + unit(), 4 * w + 5 * unit());
        assert((w + unit()) * (4 * w + 5 * unit()) <= limit() * unit()) by (nonlinear_arith)
            requires
                0 <= w <= 100000000000000 * unit(),
                unit() == 10000000000000000000000000000,
                limit() == (MAX_MANTISSA - 1) * unit(),
        ;
    }
    let numerator = dec_mul(food, rest);
    let denominator = dec_add(food, wood);
    proof {
        lemma_rounded_size(food.v() + wood.v(), denominator);
    }
    if denominator.eq_value(&Dec::zero()) {
        return false;
    }
    let magnitude = denominator.abs();
    let factor = Dec { mantissa: 300000000000000, scale: 0 };
    proof {
        assert(factor.v() == 300000000000000 * unit());
        lemma_abs_mul_le(magnitude.v(), factor.v(), 200000000000003 * unit(), 300000000000000 * unit());
        assert((200000000000003 * unit()) * (300000000000000 * unit()) <= limit() * unit()) by (nonlinear_arith)
            requires
                unit() == 10000000000000000000000000000,
                limit() == (MAX_MANTISSA - 1) * unit(),
                MAX_MANTISSA == 79228162514264337593543950335,
        ;
    }
    let room = dec_mul(magnitude, factor);
    if !numerator.abs().le(&room) {
        return false;
    }
    proof {
        lemma_product_size(magnitude, factor, room);
        lemma_v_sign(denominator);
        assert(abs_int(numerator.v()) <= (MAX_MANTISSA - 1) * abs_int(denominator.v())) by (nonlinear_arith)
            requires
                abs_int(numerator.v()) <= room.v(),
                abs_int(room.v()) * unit() <= abs_int(magnitude.v() * factor.v()) + unit() * unit(),
                magnitude.v() == abs_int(denominator.v()),
                factor.v() == 300000000000000 * unit(),
                abs_int(denominator.v()) >= 1,
                unit() == 10000000000000000000000000000,
                MAX_MANTISSA == 79228162514264337593543950335,
        ;
    }
    let new_food = dec_div(numerator, denominator);
    if !(new_food.within_units(1000000000000000)) {
        return false;
    }
    let new_wood = dec_sub(worker_days, new_food);
    proof {
        lemma_rounded_size(worker_days.v() - new_food.v(), new_wood);
        assert(abs_int(worker_days.v() - new_food.v()) <= limit());
        assert(abs_int(new_wood.v() - construction.v()) <= limit());
    }
    true
}

/// Whether Survival's quotient is in range, and its other bounds hold.
fn survival_checked(s: &SurvivalStrategy, v: &VillageState, m: &MarketState) -> (r: bool)
    requires
        state_ok(*v, *m),
    ensures
        r == survival_guard(*s, *v, *m),
        r ==> s.accepts(*v, *m),
{
    proof {
        lemma_unit();
    }
    if !(s.min_food_days <= 1000000000 && s.min_wood_days <= 1000000000) {
        return false;
    }
    let fd = food_days_of(v);
    let wd = wood_days_of(v);
    let rich = v.money.gt(&Dec::new(20, 0));
    if fd < 10 && rich {
        if fd > s.min_food_days {
            return false;
        }
        #[verifier::truncate]
        let w: u32 = v.workers as u32;
        let short: u32 = s.min_food_days - fd;
        proof {
            assert((short as u128) * (w as u128) <= 4294967295u128 * 4294967295u128) by (nonlinear_arith)
                requires
                    short <= 4294967295u128,
                    w <= 4294967295u128,
            ;
        }
        if !((short as u128) * (w as u128) <= 4294967295u128) {
            return false;
        }
    }
    if wd < 10 && rich && wd >= s.min_wood_days {
        return false;
    }
    if !(fd >= 5 && wd >= 5 && fd > s.min_food_days && wd > s.min_wood_days) {
        return true;
    }
    let food_weight = if fd < s.min_food_days {
        Dec::new(7, 1)
    } else {
        Dec::new(4, 1)
    };
    let wood_weight = if wd < s.min_wood_days {
        Dec::new(5, 1)
    } else {
        Dec::new(3, 1)
    };
    let food_share = weight_share(food_weight, wood_weight);
    let wood_share = weight_share(wood_weight, food_weight);
    let food = mul_any(v.worker_days, food_share);
    let wood = mul_any(v.worker_days, wood_share);
    proof {
        lemma_split_size(v.worker_days, food_share, food);
        lemma_split_size(v.worker_days, wood_share, wood);
    }
    rebalance_checked(v.worker_days, food, wood)
}

/// Whether a share's quotient is in range.
fn proportion_checked(worker_days: Dec, x: Dec, total: Dec) -> (r: bool)
    requires
        sizable(worker_days),
        x.wf(),
        total.wf(),
        abs_int(x.v()) <= 200000000000000000000 * unit(),
        abs_int(total.v()) <= 100000000000009000008 * unit(),
    ensures
        r == proportion_guard(x, total),
        r ==> proportion_ok(worker_days, x, total),
{
    proof {
        lemma_unit();
    }
    if total.eq_value(&Dec::zero()) {
        return false;
    }
    let magnitude = total.abs();
    let factor = Dec { mantissa: 100000000, scale: 0 };
    proof {
        assert(factor.v() == 100000000 * unit());
        lemma_abs_mul_le(magnitude.v(), factor.v(), 100000000000009000008 * unit(), 100000000 * unit());
        assert((100000000000009000008 * unit()) * (100000000 * unit()) <= limit() * unit()) by (nonlinear_arith)
            requires
                unit() == 10000000000000000000000000000,
                limit() == (MAX_MANTISSA - 1) * unit(),
                MAX_MANTISSA == 79228162514264337593543950335,
        ;
    }
    let room = dec_mul(magnitude, factor);
    if !x.abs().le(&room) {
        return false;
    }
    proof {
        lemma_product_size(magnitude, factor, room);
        lemma_v_sign(total);
        assert(abs_int(x.v()) <= (MAX_MANTISSA - 1) * abs_int(total.v())) by (nonlinear_arith)
            requires
                abs_int(x.v()) <= room.v(),
                abs_int(room.v()) * unit() <= abs_int(magnitude.v() * factor.v()) + unit() * unit(),
                magnitude.v() == abs_int(total.v()),
                factor.v() == 100000000 * unit(),
                abs_int(total.v()) >= 1,
                unit() == 10000000000000000000000000000,
                MAX_MANTISSA == 79228162514264337593543950335,
        ;
    }
    let q = dec_div(x, total);
    if !q.within_units(100000000) {
        return false;
    }
    proof {
        lemma_abs_mul_le(worker_days.v(), q.v(), 100000000000000 * unit(), 100000000 * unit());
        assert((100000000000000 * unit()) * (100000000 * unit()) <= limit() * unit()) by (nonlinear_arith)
            requires
                unit() == 10000000000000000000000000000,
                limit() == (MAX_MANTISSA - 1) * unit(),
                MAX_MANTISSA == 79228162514264337593543950335,
        ;
    }
    true
}

/// Whether Balanced's quotients are in range, and its other bounds hold.
fn balanced_checked(s: &BalancedStrategy, v: &VillageState, m: &MarketState) -> (r: bool)
    requires
        state_ok(*v, *m),
    ensures
        r == balanced_guard(*s, *v, *m),
        r ==> s.accepts(*v, *m),
{
    proof {
        lemma_unit();
    }
    if !(is_modest(&s.food_weight) && is_modest(&s.wood_weight) && is_modest(&s.construction_weight)
        && is_modest(&s.repair_weight)) {
        return false;
    }
    let fd = food_days_of(v);
    let wd = wood_days_of(v);
    let (fu, wu, cn, total) = s.needs(v, fd, wd);
    if !(proportion_checked(v.worker_days, fu, total) && proportion_checked(v.worker_days, wu, total)
        && proportion_checked(v.worker_days, cn, total)) {
        return false;
    }
    if fd < 15 && v.money.gt(&Dec::new(30, 0)) {
        #[verifier::truncate]
        let w: u32 = v.workers as u32;
        let short: u32 = 15 - fd;
        proof {
            assert((short as u128) * (w as u128) <= 15 * 4294967295u128) by (nonlinear_arith)
                requires
                    short <= 15,
                    w <= 4294967295u128,
            ;
        }
        (short as u128) * (w as u128) <= 4294967295u128
    } else {
        true
    }
}

} // verus!
