//! What a log of events adds up to, village by village and for the market,
//! and reading strategy names out of village identifiers.
use crate::decimal::{abs_int, dec_div, dec_sub, limit, decimal_difference, decimal_product, decimal_quotient, decimal_sum, lemma_unit, lemma_v_sign, unit, Dec, MAX_MANTISSA};
use crate::events::{DeathCause, Event, EventType, ResourceType, TradeSide};
use crate::metrics::{accumulate, small, small_product, total_bound, zero_dec};
use crate::simulation::whole;
use vstd::prelude::*;

verus! {

/// The strategy a village is reported under: its identifier as it stands.
pub fn extract_strategy_name(village_id: &str) -> (r: Option<String>)
    ensures
        r matches Some(s) && s@ == village_id@,
{
    Some(String::from_str(village_id))
}

/// How many of the first `n` characters are underscores.
pub open spec fn underscores(s: Seq<char>, n: int) -> int
    decreases n,
{
    if n <= 0 {
        0
    } else {
        underscores(s, n - 1) + if s[n - 1] == '_' {
            1int
        } else {
            0int
        }
    }
}

/// `p` is the position of the second underscore.
pub open spec fn second_underscore_at(s: Seq<char>, p: int) -> bool {
    0 <= p < s.len() && s[p] == '_' && underscores(s, p) == 1
}

/// What follows the second underscore of an identifier such as
/// `village_1_balanced`, if it has two; the parts after the second are kept
/// with their underscores.
pub open spec fn strategy_suffix(s: Seq<char>) -> Option<Seq<char>> {
    if exists|p: int| second_underscore_at(s, p) {
        let p = choose|p: int| second_underscore_at(s, p);
        Some(s.subrange(p + 1, s.len() as int))
    } else {
        None
    }
}

proof fn lemma_underscores_mono(s: Seq<char>, a: int, b: int)
    requires
        0 <= a <= b <= s.len(),
    ensures
        underscores(s, a) <= underscores(s, b),
    decreases b - a,
{
    if a < b {
        lemma_underscores_mono(s, a, b - 1);
    }
}

/// The strategy named in an identifier of the form `village_<n>_<strategy>`:
/// everything after the second underscore; `None` when there are fewer than
/// two underscores.
pub fn extract_strategy_from_id(id: &str) -> (r: Option<String>)
    ensures
        match (r, strategy_suffix(id@)) {
            (Some(s), Some(t)) => s@ == t,
            (None, None) => true,
            _ => false,
        },
{
    let n = id.unicode_len();
    let mut i: usize = 0;
    let mut seen: usize = 0;
    while i < n
        invariant
            n == id@.len(),
            i <= n,
            seen == underscores(id@, i as int),
            seen <= 1,
        decreases n - i,
    {
        let c = id.get_char(i);
        if c == '_' {
            if seen == 1 {
                proof {
                    assert(second_underscore_at(id@, i as int));
                    assert forall|p: int| second_underscore_at(id@, p) implies p == i by {
                        if p < i {
                            lemma_underscores_mono(id@, p + 1, i as int);
                        } else if p > i {
                            lemma_underscores_mono(id@, i + 1, p);
                        }
                    }
                }
                let rest = id.substring_char(i + 1, n);
                return Some(String::from_str(rest));
            }
            seen = seen + 1;
        }
        i = i + 1;
    }
    proof {
        assert forall|p: int| !second_underscore_at(id@, p) by {
            if 0 <= p < id@.len() && id@[p] == '_' && underscores(id@, p) == 1 {
                lemma_underscores_mono(id@, p + 1, n as int);
            }
        }
    }
    None
}

/// Counts and totals over the events of one village.
#[derive(Clone, Copy, Debug)]
pub struct VillageCounts {
    /// The first non-zero population that a state snapshot reported.
    pub initial_population: usize,
    /// The population of the last state snapshot.
    pub final_population: usize,
    /// The largest population that a state snapshot reported.
    pub peak_population: usize,
    pub food_produced: Dec,
    pub wood_produced: Dec,
    pub food_consumed: Dec,
    pub wood_consumed: Dec,
    pub starvation_deaths: usize,
    pub shelter_deaths: usize,
    pub buy_orders: usize,
    pub sell_orders: usize,
    pub total_trades: usize,
    pub executed_buys: usize,
    pub executed_sells: usize,
    /// What the village paid for its purchases, price times quantity.
    pub total_spent: Dec,
    /// What the village was paid for its sales, price times quantity.
    pub total_earned: Dec,
}

/// What the events say of one village.
#[derive(Debug)]
pub struct VillageData {
    pub id: String,
    pub counts: VillageCounts,
    /// What the village earned less what it spent.
    pub net_profit: Dec,
    /// The tick and population of each state snapshot, in order.
    pub population_history: Vec<(usize, usize)>,
    /// The food and wood workers of each allocation, in order.
    pub allocations: Vec<(u32, u32)>,
}

/// What a village's trading came to.
#[derive(Clone, Copy, Debug)]
pub struct TradingSummary {
    pub total_trades: usize,
    pub buy_orders: usize,
    pub sell_orders: usize,
    pub executed_buys: usize,
    pub executed_sells: usize,
    /// What the village paid for its purchases.
    pub total_spent: Dec,
    /// What the village was paid for its sales.
    pub total_earned: Dec,
    /// What it earned less what it spent.
    pub net_profit: Dec,
}

/// A village's identifier with its trading.
#[derive(Clone, Debug)]
pub struct VillageTrading {
    pub id: String,
    pub trading: TradingSummary,
}

/// What the events say of the market.
#[derive(Debug)]
pub struct MarketData {
    pub total_orders: usize,
    pub total_trades: usize,
    /// The tick and price of each wood trade, in order.
    pub wood_prices: Vec<(usize, Dec)>,
    /// The tick and price of each food trade, in order.
    pub food_prices: Vec<(usize, Dec)>,
    /// The quantity of wood traded; `None` when none was.
    pub wood_volume: Option<Dec>,
    /// The quantity of food traded; `None` when none was.
    pub food_volume: Option<Dec>,
}

/// A log of events, added up.
#[derive(Debug)]
pub struct EventDigest {
    /// One entry per village, in the order in which the villages first
    /// appear in an event that is counted.
    pub villages: Vec<VillageData>,
    pub market: MarketData,
    /// The largest tick of any event; zero for an empty log.
    pub max_tick: usize,
}

/// Nothing counted yet.
pub open spec fn no_counts() -> VillageCounts {
    VillageCounts {
        initial_population: 0,
        final_population: 0,
        peak_population: 0,
        food_produced: zero_dec(),
        wood_produced: zero_dec(),
        food_consumed: zero_dec(),
        wood_consumed: zero_dec(),
        starvation_deaths: 0,
        shelter_deaths: 0,
        buy_orders: 0,
        sell_orders: 0,
        total_trades: 0,
        executed_buys: 0,
        executed_sells: 0,
        total_spent: zero_dec(),
        total_earned: zero_dec(),
    }
}

/// The counts after one more event of the village: production and
/// consumption are added up by resource; a snapshot sets the final population,
/// raises the peak, and sets the initial population while it is still zero;
/// deaths are counted by cause and orders by side; a trade is counted, and
/// its price times its quantity is added to what was spent on a purchase or
/// earned by a sale.
pub open spec fn counts_step(c: VillageCounts, t: EventType) -> VillageCounts {
    match t {
        EventType::ResourceProduced { resource, amount, .. } => if resource == ResourceType::Food {
            VillageCounts { food_produced: decimal_sum(c.food_produced, amount), ..c }
        } else {
            VillageCounts { wood_produced: decimal_sum(c.wood_produced, amount), ..c }
        },
        EventType::ResourceConsumed { resource, amount, .. } => if resource == ResourceType::Food {
            VillageCounts { food_consumed: decimal_sum(c.food_consumed, amount), ..c }
        } else {
            VillageCounts { wood_consumed: decimal_sum(c.wood_consumed, amount), ..c }
        },
        EventType::VillageStateSnapshot { population, .. } => VillageCounts {
            initial_population: if c.initial_population == 0 {
                population
            } else {
                c.initial_population
            },
            final_population: population,
            peak_population: if population > c.peak_population {
                population
            } else {
                c.peak_population
            },
            ..c
        },
        EventType::WorkerDied { cause, .. } => if cause == DeathCause::Starvation {
            VillageCounts { starvation_deaths: (c.starvation_deaths + 1) as usize, ..c }
        } else {
            VillageCounts { shelter_deaths: (c.shelter_deaths + 1) as usize, ..c }
        },
        EventType::OrderPlaced { side, .. } => if side == TradeSide::Buy {
            VillageCounts { buy_orders: (c.buy_orders + 1) as usize, ..c }
        } else {
            VillageCounts { sell_orders: (c.sell_orders + 1) as usize, ..c }
        },
        EventType::TradeExecuted { quantity, price, side, .. } => if side == TradeSide::Buy {
            VillageCounts {
                total_trades: (c.total_trades + 1) as usize,
                executed_buys: (c.executed_buys + 1) as usize,
                total_spent: decimal_sum(c.total_spent, decimal_product(price, quantity)),
                ..c
            }
        } else {
            VillageCounts {
                total_trades: (c.total_trades + 1) as usize,
                executed_sells: (c.executed_sells + 1) as usize,
                total_earned: decimal_sum(c.total_earned, decimal_product(price, quantity)),
                ..c
            }
        },
        _ => c,
    }
}

/// The counts over the village's events among the first `n`.
pub open spec fn counts_of(events: Seq<Event>, id: Seq<char>, n: nat) -> VillageCounts
    decreases n,
{
    if n == 0 {
        no_counts()
    } else {
        let prev = counts_of(events, id, (n - 1) as nat);
        if events[n - 1].village_id@ == id {
            counts_step(prev, events[n - 1].event_type)
        } else {
            prev
        }
    }
}

/// The tick and population of each state snapshot of the village among the
/// first `n` events.
pub open spec fn history_at(events: Seq<Event>, id: Seq<char>, n: nat) -> Seq<(usize, usize)>
    decreases n,
{
    if n == 0 {
        Seq::empty()
    } else {
        let prev = history_at(events, id, (n - 1) as nat);
        let e = events[n - 1];
        if e.village_id@ == id {
            match e.event_type {
                EventType::VillageStateSnapshot { population, .. } => prev.push((e.tick, population)),
                _ => prev,
            }
        } else {
            prev
        }
    }
}

/// The food and wood workers, each cut to 32 bits, of each allocation of the
/// village among the first `n` events.
pub open spec fn allocations_at(events: Seq<Event>, id: Seq<char>, n: nat) -> Seq<(u32, u32)>
    decreases n,
{
    if n == 0 {
        Seq::empty()
    } else {
        let prev = allocations_at(events, id, (n - 1) as nat);
        let e = events[n - 1];
        if e.village_id@ == id {
            match e.event_type {
                EventType::WorkerAllocation { food_workers, wood_workers, .. } => prev.push(
                    (food_workers as u32, wood_workers as u32),
                ),
                _ => prev,
            }
        } else {
            prev
        }
    }
}

/// The kinds of event that give their village an entry.
pub open spec fn counted(t: EventType) -> bool {
    match t {
        EventType::WorkerAllocation { .. } => true,
        EventType::ResourceProduced { .. } => true,
        EventType::ResourceConsumed { .. } => true,
        EventType::VillageStateSnapshot { .. } => true,
        EventType::WorkerDied { .. } => true,
        EventType::OrderPlaced { .. } => true,
        EventType::TradeExecuted { .. } => true,
        _ => false,
    }
}

/// The villages of the first `n` events, each once, in the order of their
/// first counted event.
pub open spec fn villages_at(events: Seq<Event>, n: nat) -> Seq<Seq<char>>
    decreases n,
{
    if n == 0 {
        Seq::empty()
    } else {
        let prev = villages_at(events, (n - 1) as nat);
        let e = events[n - 1];
        if counted(e.event_type) && !prev.contains(e.village_id@) {
            prev.push(e.village_id@)
        } else {
            prev
        }
    }
}

/// How many of the first `n` events are placed orders.
pub open spec fn orders_at(events: Seq<Event>, n: nat) -> nat
    decreases n,
{
    if n == 0 {
        0
    } else {
        orders_at(events, (n - 1) as nat) + if events[n - 1].event_type is OrderPlaced {
            1nat
        } else {
            0nat
        }
    }
}

/// How many of the first `n` events are executed trades.
pub open spec fn trades_at(events: Seq<Event>, n: nat) -> nat
    decreases n,
{
    if n == 0 {
        0
    } else {
        trades_at(events, (n - 1) as nat) + if events[n - 1].event_type is TradeExecuted {
            1nat
        } else {
            0nat
        }
    }
}

/// The tick and price of each trade of the resource among the first `n`
/// events.
pub open spec fn prices_at(events: Seq<Event>, resource: ResourceType, n: nat) -> Seq<(usize, Dec)>
    decreases n,
{
    if n == 0 {
        Seq::empty()
    } else {
        let prev = prices_at(events, resource, (n - 1) as nat);
        let e = events[n - 1];
        match e.event_type {
            EventType::TradeExecuted { resource: r, price, .. } => if r == resource {
                prev.push((e.tick, price))
            } else {
                prev
            },
            _ => prev,
        }
    }
}

/// The quantity of the resource traded among the first `n` events, added up
/// from zero; `None` when none was.
pub open spec fn volume_at(events: Seq<Event>, resource: ResourceType, n: nat) -> Option<Dec>
    decreases n,
{
    if n == 0 {
        None
    } else {
        let prev = volume_at(events, resource, (n - 1) as nat);
        match events[n - 1].event_type {
            EventType::TradeExecuted { resource: r, quantity, .. } => if r == resource {
                Some(
                    decimal_sum(
                        match prev {
                            Some(v) => v,
                            None => zero_dec(),
                        },
                        quantity,
                    ),
                )
            } else {
                prev
            },
            _ => prev,
        }
    }
}

/// The largest tick among the first `n` events; zero when there are none.
pub open spec fn max_tick_at(events: Seq<Event>, n: nat) -> usize
    decreases n,
{
    if n == 0 {
        0
    } else {
        let prev = max_tick_at(events, (n - 1) as nat);
        if events[n - 1].tick > prev {
            events[n - 1].tick
        } else {
            prev
        }
    }
}

/// The first `n` prices added up, in order, starting from zero.
pub open spec fn price_sum(prices: Seq<(usize, Dec)>, n: nat) -> Dec
    decreases n,
{
    if n == 0 {
        zero_dec()
    } else {
        decimal_sum(price_sum(prices, (n - 1) as nat), prices[n - 1].1)
    }
}

/// The decimals that a digest adds up or multiplies are small.
pub open spec fn digestible_event(t: EventType) -> bool {
    match t {
        EventType::ResourceProduced { amount, .. } => small(amount),
        EventType::ResourceConsumed { amount, .. } => small(amount),
        EventType::TradeExecuted { quantity, price, .. } => small(quantity) && small(price),
        _ => true,
    }
}

/// At most a billion events, each with small decimals: enough room that no
/// total overflows.
pub open spec fn digestible(events: Seq<Event>) -> bool {
    &&& events.len() <= 1000000000
    &&& forall|i: int| 0 <= i < events.len() ==> digestible_event(#[trigger] events[i].event_type)
}

proof fn lemma_total_bound_grows(i: int)
    requires
        i >= 0,
    ensures
        total_bound(i) <= total_bound(i + 1),
        1000000000 * unit() <= 1000000000000000001 * unit(),
{
    lemma_unit();
    assert(total_bound(i) <= total_bound(i + 1)) by (nonlinear_arith)
        requires
            i >= 0,
            total_bound(i) == i * 20000000000000000000000000000000000000000000000,
            total_bound(i + 1) == (i + 1) * 20000000000000000000000000000000000000000000000,
    ;
}

/// Whether the event gives its village an entry.
fn is_counted(t: &EventType) -> (r: bool)
    ensures
        r == counted(*t),
{
    match t {
        EventType::WorkerAllocation { .. } => true,
        EventType::ResourceProduced { .. } => true,
        EventType::ResourceConsumed { .. } => true,
        EventType::VillageStateSnapshot { .. } => true,
        EventType::WorkerDied { .. } => true,
        EventType::OrderPlaced { .. } => true,
        EventType::TradeExecuted { .. } => true,
        _ => false,
    }
}

/// Where the identifier stands in the list, if it does.
fn position_of(ids: &Vec<String>, id: &String) -> (r: Option<usize>)
    ensures
        match r {
            Some(k) => k < ids@.len() && ids@[k as int]@ == id@,
            None => forall|k: int| 0 <= k < ids@.len() ==> (#[trigger] ids@[k])@ != id@,
        },
{
    let mut k: usize = 0;
    while k < ids.len()
        invariant
            k <= ids@.len(),
            forall|j: int| 0 <= j < k ==> (#[trigger] ids@[j])@ != id@,
        decreases ids@.len() - k,
    {
        if ids[k] == *id {
            return Some(k);
        }
        k = k + 1;
    }
    None
}

/// Goes through the events of one village, in order, and adds them up.
fn village_data(events: &[Event], id: &String) -> (r: VillageData)
    requires
        digestible(events@),
    ensures
        r.id@ == id@,
        r.counts == counts_of(events@, id@, events@.len() as nat),
        r.population_history@ == history_at(events@, id@, events@.len() as nat),
        r.allocations@ == allocations_at(events@, id@, events@.len() as nat),
        r.net_profit == decimal_difference(r.counts.total_earned, r.counts.total_spent),
{
    let zero = Dec::zero();
    let mut c = VillageCounts {
        initial_population: 0,
        final_population: 0,
        peak_population: 0,
        food_produced: zero,
        wood_produced: zero,
        food_consumed: zero,
        wood_consumed: zero,
        starvation_deaths: 0,
        shelter_deaths: 0,
        buy_orders: 0,
        sell_orders: 0,
        total_trades: 0,
        executed_buys: 0,
        executed_sells: 0,
        total_spent: zero,
        total_earned: zero,
    };
    let mut history: Vec<(usize, usize)> = Vec::new();
    let mut allocations: Vec<(u32, u32)> = Vec::new();
    let mut i: usize = 0;
    while i < events.len()
        invariant
            i <= events@.len(),
            digestible(events@),
            c == counts_of(events@, id@, i as nat),
            history@ == history_at(events@, id@, i as nat),
            allocations@ == allocations_at(events@, id@, i as nat),
            c.starvation_deaths <= i,
            c.shelter_deaths <= i,
            c.buy_orders <= i,
            c.sell_orders <= i,
            c.total_trades <= i,
            c.executed_buys <= i,
            c.executed_sells <= i,
            c.food_produced.wf(),
            c.wood_produced.wf(),
            c.food_consumed.wf(),
            c.wood_consumed.wf(),
            c.total_spent.wf(),
            c.total_earned.wf(),
            abs_int(c.food_produced.v()) <= total_bound(i as int),
            abs_int(c.wood_produced.v()) <= total_bound(i as int),
            abs_int(c.food_consumed.v()) <= total_bound(i as int),
            abs_int(c.wood_consumed.v()) <= total_bound(i as int),
            abs_int(c.total_spent.v()) <= total_bound(i as int),
            abs_int(c.total_earned.v()) <= total_bound(i as int),
        decreases events@.len() - i,
    {
        let e = &events[i];
        let ghost c0 = c;
        proof {
            assert(digestible_event(events@[i as int].event_type));
            lemma_total_bound_grows(i as int);
        }
        if e.village_id == *id {
            match &e.event_type {
                EventType::ResourceProduced { resource, amount, .. } => match resource {
                    ResourceType::Food => {
                        c.food_produced = accumulate(c.food_produced, *amount, true, Ghost(i as int));
                    },
                    ResourceType::Wood => {
                        c.wood_produced = accumulate(c.wood_produced, *amount, true, Ghost(i as int));
                    },
                },
                EventType::ResourceConsumed { resource, amount, .. } => match resource {
                    ResourceType::Food => {
                        c.food_consumed = accumulate(c.food_consumed, *amount, true, Ghost(i as int));
                    },
                    ResourceType::Wood => {
                        c.wood_consumed = accumulate(c.wood_consumed, *amount, true, Ghost(i as int));
                    },
                },
                EventType::VillageStateSnapshot { population, .. } => {
                    if c.initial_population == 0 {
                        c.initial_population = *population;
                    }
                    c.final_population = *population;
                    if *population > c.peak_population {
                        c.peak_population = *population;
                    }
                    history.push((e.tick, *population));
                },
                EventType::WorkerDied { cause, .. } => match cause {
                    DeathCause::Starvation => {
                        c.starvation_deaths = c.starvation_deaths + 1;
                    },
                    DeathCause::NoShelter => {
                        c.shelter_deaths = c.shelter_deaths + 1;
                    },
                },
                EventType::OrderPlaced { side, .. } => match side {
                    TradeSide::Buy => {
                        c.buy_orders = c.buy_orders + 1;
                    },
                    TradeSide::Sell => {
                        c.sell_orders = c.sell_orders + 1;
                    },
                },
                EventType::TradeExecuted { quantity, price, side, .. } => {
                    c.total_trades = c.total_trades + 1;
                    let value = small_product(*price, *quantity);
                    match side {
                        TradeSide::Buy => {
                            c.executed_buys = c.executed_buys + 1;
                            c.total_spent = accumulate(c.total_spent, value, true, Ghost(i as int));
                        },
                        TradeSide::Sell => {
                            c.executed_sells = c.executed_sells + 1;
                            c.total_earned = accumulate(c.total_earned, value, true, Ghost(i as int));
                        },
                    }
                },
                EventType::WorkerAllocation { food_workers, wood_workers, .. } => {
                    #[verifier::truncate]
                    let food: u32 = *food_workers as u32;
                    #[verifier::truncate]
                    let wood: u32 = *wood_workers as u32;
                    allocations.push((food, wood));
                },
                _ => {},
            }
            proof {
                assert(c == counts_step(c0, events@[i as int].event_type));
            }
        }
        proof {
            assert(history@ == history_at(events@, id@, (i + 1) as nat));
            assert(allocations@ == allocations_at(events@, id@, (i + 1) as nat));
        }
        i = i + 1;
    }
    proof {
        lemma_unit();
        assert(abs_int(c.total_earned.v() - c.total_spent.v()) <= limit()) by (nonlinear_arith)
            requires
                abs_int(c.total_earned.v()) <= i * 20000000000000000000000000000000000000000000000,
                abs_int(c.total_spent.v()) <= i * 20000000000000000000000000000000000000000000000,
                i <= 1000000000,
                limit() == (MAX_MANTISSA - 1) * unit(),
                unit() == 10000000000000000000000000000,
                MAX_MANTISSA == 79228162514264337593543950335,
        ;
    }
    let net_profit = dec_sub(c.total_earned, c.total_spent);
    VillageData {
        id: String::from_str(id.as_str()),
        counts: c,
        net_profit,
        population_history: history,
        allocations,
    }
}

/// Adds a trade's quantity to the volume traded of its resource, starting
/// from zero.
fn add_volume(volume: Option<Dec>, quantity: Dec, Ghost(i): Ghost<int>) -> (r: Option<Dec>)
    requires
        0 <= i < 1000000000,
        small(quantity),
        match volume {
            Some(v) => v.wf() && abs_int(v.v()) <= total_bound(i),
            None => true,
        },
    ensures
        r == Some(
            decimal_sum(
                match volume {
                    Some(v) => v,
                    None => zero_dec(),
                },
                quantity,
            ),
        ),
        r.unwrap().wf(),
        abs_int(r.unwrap().v()) <= total_bound(i + 1),
{
    proof {
        lemma_total_bound_grows(i);
        assert(0 <= total_bound(i)) by (nonlinear_arith)
            requires
                i >= 0,
                total_bound(i) == i * 20000000000000000000000000000000000000000000000,
        ;
    }
    let base = match volume {
        Some(v) => v,
        None => Dec::zero(),
    };
    Some(accumulate(base, quantity, true, Ghost(i)))
}

/// Goes through a log of events once and adds it up: for each village that
/// has a counted event, its counts, its population snapshots and its worker
/// allocations; for the market, the orders and trades, the price of each
/// trade by resource and the quantity traded of each resource; and the
/// largest tick.
pub fn digest_events(events: &[Event]) -> (r: EventDigest)
    requires
        digestible(events@),
    ensures
        r.villages@.len() == villages_at(events@, events@.len() as nat).len(),
        forall|k: int|
            0 <= k < r.villages@.len() ==> {
                let id = villages_at(events@, events@.len() as nat)[k];
                let v = #[trigger] r.villages@[k];
                &&& v.id@ == id
                &&& v.counts == counts_of(events@, id, events@.len() as nat)
                &&& v.population_history@ == history_at(events@, id, events@.len() as nat)
                &&& v.allocations@ == allocations_at(events@, id, events@.len() as nat)
                &&& v.net_profit == decimal_difference(v.counts.total_earned, v.counts.total_spent)
            },
        r.market.total_orders == orders_at(events@, events@.len() as nat),
        r.market.total_trades == trades_at(events@, events@.len() as nat),
        r.market.wood_prices@ == prices_at(events@, ResourceType::Wood, events@.len() as nat),
        r.market.food_prices@ == prices_at(events@, ResourceType::Food, events@.len() as nat),
        r.market.wood_volume == volume_at(events@, ResourceType::Wood, events@.len() as nat),
        r.market.food_volume == volume_at(events@, ResourceType::Food, events@.len() as nat),
        r.max_tick == max_tick_at(events@, events@.len() as nat),
{
    let mut ids: Vec<String> = Vec::new();
    let mut total_orders: usize = 0;
    let mut total_trades: usize = 0;
    let mut wood_prices: Vec<(usize, Dec)> = Vec::new();
    let mut food_prices: Vec<(usize, Dec)> = Vec::new();
    let mut wood_volume: Option<Dec> = None;
    let mut food_volume: Option<Dec> = None;
    let mut max_tick: usize = 0;
    let mut i: usize = 0;
    while i < events.len()
        invariant
            i <= events@.len(),
            digestible(events@),
            ids@.len() == villages_at(events@, i as nat).len(),
            forall|k: int| 0 <= k < ids@.len() ==> (#[trigger] ids@[k])@ == villages_at(events@, i as nat)[k],
            total_orders == orders_at(events@, i as nat),
            total_orders <= i,
            total_trades == trades_at(events@, i as nat),
            total_trades <= i,
            wood_prices@ == prices_at(events@, ResourceType::Wood, i as nat),
            food_prices@ == prices_at(events@, ResourceType::Food, i as nat),
            wood_volume == volume_at(events@, ResourceType::Wood, i as nat),
            food_volume == volume_at(events@, ResourceType::Food, i as nat),
            match wood_volume {
                Some(v) => v.wf() && abs_int(v.v()) <= total_bound(i as int),
                None => true,
            },
            match food_volume {
                Some(v) => v.wf() && abs_int(v.v()) <= total_bound(i as int),
                None => true,
            },
            max_tick == max_tick_at(events@, i as nat),
        decreases events@.len() - i,
    {
        let e = &events[i];
        proof {
            assert(digestible_event(events@[i as int].event_type));
            lemma_total_bound_grows(i as int);
        }
        if e.tick > max_tick {
            max_tick = e.tick;
        }
        match &e.event_type {
            EventType::OrderPlaced { .. } => {
                total_orders = total_orders + 1;
            },
            EventType::TradeExecuted { resource, quantity, price, .. } => {
                total_trades = total_trades + 1;
                match resource {
                    ResourceType::Wood => {
                        wood_prices.push((e.tick, *price));
                        wood_volume = add_volume(wood_volume, *quantity, Ghost(i as int));
                    },
                    ResourceType::Food => {
                        food_prices.push((e.tick, *price));
                        food_volume = add_volume(food_volume, *quantity, Ghost(i as int));
                    },
                }
            },
            _ => {},
        }
        let ghost seen = villages_at(events@, i as nat);
        if is_counted(&e.event_type) {
            match position_of(&ids, &e.village_id) {
                Some(k) => {
                    proof {
                        assert(seen[k as int] == e.village_id@);
                        assert(seen.contains(e.village_id@));
                    }
                },
                None => {
                    proof {
                        assert(!seen.contains(e.village_id@)) by {
                            if seen.contains(e.village_id@) {
                                let k = choose|k: int| 0 <= k < seen.len() && seen[k] == e.village_id@;
                                assert(ids@[k]@ == seen[k]);
                            }
                        }
                    }
                    ids.push(String::from_str(e.village_id.as_str()));
                },
            }
        }
        proof {
            assert(events@[i as int] == *e);
            assert(wood_volume matches Some(v) ==> v.wf() && abs_int(v.v()) <= total_bound(i + 1));
            assert(food_volume matches Some(v) ==> v.wf() && abs_int(v.v()) <= total_bound(i + 1));
        }
        i = i + 1;
    }
    let ghost all = villages_at(events@, events@.len() as nat);
    let mut villages: Vec<VillageData> = Vec::new();
    let mut k: usize = 0;
    while k < ids.len()
        invariant
            k <= ids@.len(),
            digestible(events@),
            ids@.len() == all.len(),
            forall|j: int| 0 <= j < ids@.len() ==> (#[trigger] ids@[j])@ == all[j],
            villages@.len() == k,
            forall|j: int|
                0 <= j < k ==> {
                    let v = #[trigger] villages@[j];
                    &&& v.id@ == all[j]
                    &&& v.counts == counts_of(events@, all[j], events@.len() as nat)
                    &&& v.population_history@ == history_at(events@, all[j], events@.len() as nat)
                    &&& v.allocations@ == allocations_at(events@, all[j], events@.len() as nat)
                    &&& v.net_profit == decimal_difference(v.counts.total_earned, v.counts.total_spent)
                },
        decreases ids@.len() - k,
    {
        let v = village_data(events, &ids[k]);
        proof {
            assert(ids@[k as int]@ == all[k as int]);
        }
        villages.push(v);
        k = k + 1;
    }
    EventDigest {
        villages,
        market: MarketData { total_orders, total_trades, wood_prices, food_prices, wood_volume, food_volume },
        max_tick,
    }
}

/// The average of the prices: their sum, added up from zero, divided by
/// their number; `None` when there are none.
pub fn average_price(prices: &Vec<(usize, Dec)>) -> (r: Option<Dec>)
    requires
        prices@.len() <= 1000000000,
        forall|k: int| 0 <= k < prices@.len() ==> small((#[trigger] prices@[k]).1),
    ensures
        prices@.len() == 0 ==> r is None,
        prices@.len() > 0 ==> r == Some(
            decimal_quotient(price_sum(prices@, prices@.len() as nat), whole(prices@.len() as int)),
        ),
{
    if prices.len() == 0 {
        return None;
    }
    let mut sum = Dec::zero();
    let mut k: usize = 0;
    while k < prices.len()
        invariant
            k <= prices@.len(),
            prices@.len() <= 1000000000,
            forall|j: int| 0 <= j < prices@.len() ==> small((#[trigger] prices@[j]).1),
            sum == price_sum(prices@, k as nat),
            sum.wf(),
            abs_int(sum.v()) <= total_bound(k as int),
        decreases prices@.len() - k,
    {
        proof {
            lemma_total_bound_grows(k as int);
            assert(small(prices@[k as int].1));
        }
        sum = accumulate(sum, prices[k].1, true, Ghost(k as int));
        k = k + 1;
    }
    let count = Dec::from_usize(prices.len());
    proof {
        lemma_unit();
        lemma_v_sign(count);
        assert(abs_int(sum.v()) <= (MAX_MANTISSA - 1) * abs_int(count.v())) by (nonlinear_arith)
            requires
                abs_int(sum.v()) <= k * 20000000000000000000000000000000000000000000000,
                k <= 1000000000,
                count.v() >= unit(),
                unit() == 10000000000000000000000000000,
                MAX_MANTISSA == 79228162514264337593543950335,
        ;
    }
    Some(dec_div(sum, count))
}

} // verus!
