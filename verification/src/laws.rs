//! Properties of the simulation that hold across its operations.
use crate::events::{DeathCause, EventType, ResourceType, TradeSide};
use crate::analysis::{counted, counts_of, max_tick_at, villages_at};
use crate::metrics::tally_of;
use crate::decimal::{decimal_difference, decimal_product, decimal_quotient, decimal_sum, lemma_unit, unit};
use crate::simulation::{whole, whole_u32};
use crate::strategies::{
    affordable, balanced_decision, days_of_food, survival_decision, BalancedStrategy, DefaultStrategy, StrategyKind, GreedyStrategy, marginal_cost, days_of_wood, greedy_decision, growth_decision, quoted, survival_allocation,
    trading_decision, GrowthStrategy, MarketState, Strategy, SurvivalStrategy, TradingStrategy,
    VillageState,
};
use crate::simulation::{after_fill, deaths_among, fill_belongs, settle_state};
use crate::types::VillageId;
use crate::auction::FinalFill;
use crate::village::{Village, Worker};
use crate::decimal::Dec;
use crate::events::Event;
use crate::ui::{blank_screen, kept, recorded_between, screen_after, ticks_between, ScreenView, HISTORY_LEN};
use vstd::prelude::*;

verus! {

/// The deaths listed among the first `n` workers name only those workers, and
/// name worker `i` exactly when it dies, with its cause.
proof fn lemma_deaths_among(ws: Seq<Worker>, n: nat, i: int)
    requires
        n <= ws.len() <= usize::MAX,
        0 <= i < ws.len(),
    ensures
        forall|j: int|
            0 <= j < deaths_among(ws, n).len() ==> (#[trigger] deaths_among(ws, n)[j]).0 < n,
        i < n && ws[i].days_without_food >= 10 ==> deaths_among(ws, n).contains(
            (i as usize, ws[i].id, DeathCause::Starvation),
        ),
        i < n && ws[i].days_without_food < 10 && ws[i].days_without_shelter >= 30 ==> deaths_among(
            ws,
            n,
        ).contains((i as usize, ws[i].id, DeathCause::NoShelter)),
        ws[i].days_without_food < 10 && ws[i].days_without_shelter < 30 ==> forall|j: int|
            0 <= j < deaths_among(ws, n).len() ==> (#[trigger] deaths_among(ws, n)[j]).0 != i,
    decreases n,
{
    if n > 0 {
        lemma_deaths_among(ws, (n - 1) as nat, i);
        let prev = deaths_among(ws, (n - 1) as nat);
        let cur = deaths_among(ws, n);
        let w = ws[n - 1];
        if w.days_without_food >= 10 || w.days_without_shelter >= 30 {
            let e = if w.days_without_food >= 10 {
                ((n - 1) as usize, w.id, DeathCause::Starvation)
            } else {
                ((n - 1) as usize, w.id, DeathCause::NoShelter)
            };
            assert(cur == prev.push(e));
            assert(cur[cur.len() - 1] == e);
            if i < n - 1 {
                if ws[i].days_without_food >= 10 {
                    let k = choose|k: int| 0 <= k < prev.len() && prev[k] == (i as usize, ws[i].id, DeathCause::Starvation);
                    assert(cur[k] == prev[k]);
                } else if ws[i].days_without_shelter >= 30 {
                    let k = choose|k: int| 0 <= k < prev.len() && prev[k] == (i as usize, ws[i].id, DeathCause::NoShelter);
                    assert(cur[k] == prev[k]);
                }
            }
            assert forall|j: int| 0 <= j < cur.len() implies (#[trigger] cur[j]).0 < n by {
                if j < prev.len() {
                    assert(cur[j] == prev[j]);
                }
            }
            if ws[i].days_without_food < 10 && ws[i].days_without_shelter < 30 {
                assert forall|j: int| 0 <= j < cur.len() implies (#[trigger] cur[j]).0 != i by {
                    if j < prev.len() {
                        assert(cur[j] == prev[j]);
                    }
                }
            }
        }
    }
}

/// At the end of a day, a worker dies exactly when it has gone ten days
/// without food, of starvation, or else thirty days without shelter, of
/// exposure; everyone else lives on. (A worker's counts go up by one for each
/// day without food or shelter and restart at zero when it has them, so a
/// worker left without food dies on the tenth such day in a row.)
pub proof fn law_who_dies(ws: Seq<Worker>, i: int)
    requires
        ws.len() <= usize::MAX,
        0 <= i < ws.len(),
    ensures
        ws[i].days_without_food >= 10 ==> deaths_among(ws, ws.len()).contains(
            (i as usize, ws[i].id, DeathCause::Starvation),
        ),
        ws[i].days_without_food < 10 && ws[i].days_without_shelter >= 30 ==> deaths_among(
            ws,
            ws.len(),
        ).contains((i as usize, ws[i].id, DeathCause::NoShelter)),
        ws[i].days_without_food < 10 && ws[i].days_without_shelter < 30 ==> forall|j: int|
            0 <= j < deaths_among(ws, ws.len()).len() ==> (#[trigger] deaths_among(ws, ws.len())[j]).0
                != i,
{
    lemma_deaths_among(ws, ws.len(), i);
}

/// Settling fills changes the stocks and the money of the villages they
/// belong to and nothing else: the villages keep their number, order, names,
/// workers, houses and slots, and a village that no fill belongs to is left
/// exactly as it was.
pub proof fn law_settlement_touches_owners(
    ids: Seq<(String, VillageId)>,
    vs: Seq<Village>,
    fills: Seq<FinalFill>,
    tick: usize,
    market: String,
    n: nat,
)
    requires
        n <= fills.len(),
    ensures
        settle_state(ids, vs, fills, tick, market, n).0.len() == vs.len(),
        forall|k: int|
            0 <= k < vs.len() ==> {
                let w = #[trigger] settle_state(ids, vs, fills, tick, market, n).0[k];
                &&& w.id == vs[k].id
                &&& w.id_str == vs[k].id_str
                &&& w.workers == vs[k].workers
                &&& w.houses == vs[k].houses
                &&& w.wood_slots == vs[k].wood_slots
                &&& w.food_slots == vs[k].food_slots
                &&& w.construction_progress == vs[k].construction_progress
            },
        forall|k: int|
            0 <= k < vs.len() && (forall|j: int| 0 <= j < n ==> !fill_belongs(ids, vs[k], #[trigger] fills[j]))
                ==> #[trigger] settle_state(ids, vs, fills, tick, market, n).0[k] == vs[k],
    decreases n,
{
    if n > 0 {
        law_settlement_touches_owners(ids, vs, fills, tick, market, (n - 1) as nat);
        let prev = settle_state(ids, vs, fills, tick, market, (n - 1) as nat);
        let cur = settle_state(ids, vs, fills, tick, market, n);
        let f = fills[n - 1];
        if exists|j: int| crate::simulation::fill_target(ids, prev.0, f, j) {
            let t = choose|j: int| crate::simulation::fill_target(ids, prev.0, f, j);
            assert(cur.0 == prev.0.update(t, after_fill(prev.0[t], f)));
            assert forall|k: int|
                0 <= k < vs.len() && (forall|j: int| 0 <= j < n ==> !fill_belongs(ids, vs[k], #[trigger] fills[j]))
                    implies #[trigger] cur.0[k] == vs[k] by {
                assert(!fill_belongs(ids, vs[k], fills[n - 1]));
                assert forall|j: int| 0 <= j < n - 1 implies !fill_belongs(ids, vs[k], #[trigger] fills[j]) by {}
                assert(prev.0[k] == vs[k]);
                if k == t {
                    assert(fill_belongs(ids, prev.0[t], f));
                    assert(false);
                }
            }
        } else {
            assert forall|k: int|
                0 <= k < vs.len() && (forall|j: int| 0 <= j < n ==> !fill_belongs(ids, vs[k], #[trigger] fills[j]))
                    implies #[trigger] cur.0[k] == vs[k] by {
                assert forall|j: int| 0 <= j < n - 1 implies !fill_belongs(ids, vs[k], #[trigger] fills[j]) by {}
            }
        }
    }
}

/// The last `n` of a sequence, or all of it when it is shorter.
pub open spec fn latest<T>(s: Seq<T>, n: nat) -> Seq<T> {
    if s.len() <= n {
        s
    } else {
        s.subrange(s.len() - n, s.len() as int)
    }
}

/// A resource history holds the latest amounts: when it held the last
/// [`HISTORY_LEN`] amounts recorded, it holds the last [`HISTORY_LEN`] after
/// one more is recorded.
pub proof fn law_history_keeps_the_latest(recorded: Seq<Dec>, amount: Dec)
    ensures
        kept(latest(recorded, HISTORY_LEN as nat).push(amount), HISTORY_LEN as nat) == latest(
            recorded.push(amount),
            HISTORY_LEN as nat,
        ),
{
    let n = HISTORY_LEN as nat;
    let all = recorded.push(amount);
    if recorded.len() < n {
        assert(latest(recorded, n) == recorded);
    } else {
        assert(kept(latest(recorded, n).push(amount), n) =~= all.subrange(all.len() - n, all.len() as int));
    }
}

/// Showing the events of `a` and then those of `b` shows the events of both,
/// in order.
proof fn lemma_screen_after_concat(s: ScreenView, a: Seq<Event>, b: Seq<Event>)
    ensures
        screen_after(screen_after(s, a), b) == screen_after(s, a + b),
    decreases b.len(),
{
    if b.len() > 0 {
        lemma_screen_after_concat(s, a, b.drop_last());
        assert((a + b).drop_last() =~= a + b.drop_last());
        assert((a + b).last() == b.last());
    }
}

/// None of the first `n` events has a tick from `lo` to `hi` when all come
/// before `lo`.
proof fn lemma_none_between(events: Seq<Event>, lo: int, hi: int, n: nat)
    requires
        n <= events.len(),
        forall|i: int| 0 <= i < n ==> (#[trigger] events[i]).tick < lo,
    ensures
        ticks_between(events, lo, hi, n) == Seq::<Event>::empty(),
    decreases n,
{
    if n > 0 {
        lemma_none_between(events, lo, hi, (n - 1) as nat);
    }
}

/// In a log ordered by tick, the events up to tick `t + 1` are those up to
/// `t` followed by those of tick `t + 1`.
proof fn lemma_between_split(events: Seq<Event>, t: int, n: nat)
    requires
        t >= 0,
        n <= events.len(),
        forall|i: int, j: int| 0 <= i < j < events.len() ==> events[i].tick <= events[j].tick,
    ensures
        ticks_between(events, 0, t + 1, n) == ticks_between(events, 0, t, n) + ticks_between(
            events,
            t + 1,
            t + 1,
            n,
        ),
    decreases n,
{
    if n > 0 {
        lemma_between_split(events, t, (n - 1) as nat);
        let e = events[n - 1];
        let a = ticks_between(events, 0, t, (n - 1) as nat);
        let b = ticks_between(events, t + 1, t + 1, (n - 1) as nat);
        if e.tick <= t {
            assert forall|i: int| 0 <= i < n - 1 implies (#[trigger] events[i]).tick < t + 1 by {
                assert(events[i].tick <= events[n - 1].tick);
            }
            lemma_none_between(events, t + 1, t + 1, (n - 1) as nat);
            assert(b == Seq::<Event>::empty());
            assert(a.push(e) + b =~= (a + b).push(e));
        } else if e.tick == t + 1 {
            assert(a + b.push(e) =~= (a + b).push(e));
        }
    }
}

/// In a log ordered by tick, stepping forward from the screen of tick `t`
/// shows what jumping to tick `t + 1` shows.
pub proof fn law_step_forward_matches_jump(events: Seq<Event>, t: int)
    requires
        t >= 0,
        forall|i: int, j: int| 0 <= i < j < events.len() ==> events[i].tick <= events[j].tick,
    ensures
        screen_after(screen_after(blank_screen(), recorded_between(events, 0, t)), recorded_between(events, t + 1, t + 1))
            == screen_after(blank_screen(), recorded_between(events, 0, t + 1)),
{
    lemma_between_split(events, t, events.len());
    lemma_screen_after_concat(blank_screen(), recorded_between(events, 0, t), recorded_between(events, t + 1, t + 1));
}

/// How many of the first `n` events belong to the village and are of the
/// kind that `kind` picks out.
pub open spec fn village_events(events: Seq<Event>, id: Seq<char>, kind: spec_fn(EventType) -> bool, n: nat) -> nat
    decreases n,
{
    if n == 0 {
        0
    } else {
        village_events(events, id, kind, (n - 1) as nat) + if events[n - 1].village_id@ == id && kind(
            events[n - 1].event_type,
        ) {
            1nat
        } else {
            0nat
        }
    }
}

/// A death from `cause`.
pub open spec fn death_from(cause: DeathCause) -> spec_fn(EventType) -> bool {
    |t: EventType|
        match t {
            EventType::WorkerDied { cause: c, .. } => c == cause,
            _ => false,
        }
}

/// An order placed on `side`.
pub open spec fn order_on(side: TradeSide) -> spec_fn(EventType) -> bool {
    |t: EventType|
        match t {
            EventType::OrderPlaced { side: s, .. } => s == side,
            _ => false,
        }
}

/// A trade executed on `side`.
pub open spec fn trade_on(side: TradeSide) -> spec_fn(EventType) -> bool {
    |t: EventType|
        match t {
            EventType::TradeExecuted { side: s, .. } => s == side,
            _ => false,
        }
}

/// A birth.
pub open spec fn birth() -> spec_fn(EventType) -> bool {
    |t: EventType| t is WorkerBorn
}

/// A completed house.
pub open spec fn house_completed() -> spec_fn(EventType) -> bool {
    |t: EventType| t is HouseCompleted
}

/// No more than `n` of `n` events are of a kind.
proof fn lemma_village_events_at_most(events: Seq<Event>, id: Seq<char>, kind: spec_fn(EventType) -> bool, n: nat)
    ensures
        village_events(events, id, kind, n) <= n,
    decreases n,
{
    if n > 0 {
        lemma_village_events_at_most(events, id, kind, (n - 1) as nat);
    }
}

/// No more than `n` of `n` events are of one of two kinds that exclude each
/// other.
proof fn lemma_village_events_disjoint(
    events: Seq<Event>,
    id: Seq<char>,
    a: spec_fn(EventType) -> bool,
    b: spec_fn(EventType) -> bool,
    n: nat,
)
    requires
        forall|t: EventType| !(#[trigger] a(t) && b(t)),
    ensures
        village_events(events, id, a, n) + village_events(events, id, b, n) <= n,
    decreases n,
{
    if n > 0 {
        lemma_village_events_disjoint(events, id, a, b, (n - 1) as nat);
    }
}

/// A digest counts each event of a village under its own kind: its
/// starvation and shelter deaths are exactly its deaths from each cause, its
/// buy and sell orders exactly its orders on each side, its executed buys
/// and sells exactly its trades on each side, and its trades their sum.
pub proof fn law_digest_counts_by_kind(events: Seq<Event>, id: Seq<char>, n: nat)
    requires
        n <= events.len(),
        n <= usize::MAX,
    ensures
        ({
            let c = counts_of(events, id, n);
            &&& c.starvation_deaths == village_events(events, id, death_from(DeathCause::Starvation), n)
            &&& c.shelter_deaths == village_events(events, id, death_from(DeathCause::NoShelter), n)
            &&& c.buy_orders == village_events(events, id, order_on(TradeSide::Buy), n)
            &&& c.sell_orders == village_events(events, id, order_on(TradeSide::Sell), n)
            &&& c.executed_buys == village_events(events, id, trade_on(TradeSide::Buy), n)
            &&& c.executed_sells == village_events(events, id, trade_on(TradeSide::Sell), n)
            &&& c.total_trades == c.executed_buys + c.executed_sells
        }),
    decreases n,
{
    if n > 0 {
        let m = (n - 1) as nat;
        law_digest_counts_by_kind(events, id, m);
        lemma_village_events_disjoint(events, id, death_from(DeathCause::Starvation), death_from(DeathCause::NoShelter), m);
        lemma_village_events_disjoint(events, id, order_on(TradeSide::Buy), order_on(TradeSide::Sell), m);
        lemma_village_events_disjoint(events, id, trade_on(TradeSide::Buy), trade_on(TradeSide::Sell), m);
    }
}

/// The population that an event reports, when it is a state snapshot of the
/// village.
pub open spec fn snapshot_of(e: Event, id: Seq<char>) -> Option<usize> {
    if e.village_id@ == id {
        match e.event_type {
            EventType::VillageStateSnapshot { population, .. } => Some(population),
            _ => None,
        }
    } else {
        None
    }
}

/// How one more event moves the populations of a village's counts.
proof fn lemma_population_step(events: Seq<Event>, id: Seq<char>, n: nat)
    requires
        n > 0,
    ensures
        ({
            let prev = counts_of(events, id, (n - 1) as nat);
            let c = counts_of(events, id, n);
            match snapshot_of(events[n - 1], id) {
                Some(p) => c.final_population == p && c.peak_population == (if p > prev.peak_population {
                    p
                } else {
                    prev.peak_population
                }) && c.initial_population == (if prev.initial_population == 0 {
                    p
                } else {
                    prev.initial_population
                }),
                None => c.final_population == prev.final_population && c.peak_population == prev.peak_population
                    && c.initial_population == prev.initial_population,
            }
        }),
{
}

/// The peak is at least every reported population, and is one of them or
/// zero.
proof fn lemma_peak(events: Seq<Event>, id: Seq<char>, n: nat)
    ensures
        forall|i: int|
            0 <= i < n && (#[trigger] snapshot_of(events[i], id)) is Some ==> snapshot_of(events[i], id)->0
                <= counts_of(events, id, n).peak_population,
        counts_of(events, id, n).peak_population == 0 || exists|i: int|
            0 <= i < n && #[trigger] snapshot_of(events[i], id) == Some(counts_of(events, id, n).peak_population),
    decreases n,
{
    if n > 0 {
        let m = (n - 1) as nat;
        lemma_peak(events, id, m);
        lemma_population_step(events, id, n);
        let prev = counts_of(events, id, m);
        let c = counts_of(events, id, n);
        if c.peak_population != 0 {
            if c.peak_population != prev.peak_population {
                assert(snapshot_of(events[m as int], id) == Some(c.peak_population));
            } else {
                let k = choose|i: int| 0 <= i < m && #[trigger] snapshot_of(events[i], id) == Some(prev.peak_population);
                assert(snapshot_of(events[k], id) == Some(c.peak_population));
            }
        }
    }
}

/// The final population is that of the last snapshot, or zero with none.
proof fn lemma_final(events: Seq<Event>, id: Seq<char>, n: nat)
    ensures
        (forall|i: int| 0 <= i < n ==> (#[trigger] snapshot_of(events[i], id)) is None) ==> counts_of(
            events,
            id,
            n,
        ).final_population == 0,
        forall|i: int|
            0 <= i < n && (#[trigger] snapshot_of(events[i], id)) is Some && (forall|j: int|
                i < j < n ==> (#[trigger] snapshot_of(events[j], id)) is None) ==> snapshot_of(events[i], id)
                == Some(counts_of(events, id, n).final_population),
    decreases n,
{
    if n > 0 {
        let m = (n - 1) as nat;
        lemma_final(events, id, m);
        lemma_population_step(events, id, n);
        let c = counts_of(events, id, n);
        assert forall|i: int|
            0 <= i < n && (#[trigger] snapshot_of(events[i], id)) is Some && (forall|j: int|
                i < j < n ==> (#[trigger] snapshot_of(events[j], id)) is None) implies snapshot_of(events[i], id)
                == Some(c.final_population) by {
            if i < m {
                assert(snapshot_of(events[m as int], id) is None);
            }
        }
    }
}

/// The initial population is that of the first snapshot that reports
/// anyone, or zero while none does.
proof fn lemma_initial(events: Seq<Event>, id: Seq<char>, n: nat)
    ensures
        (forall|i: int| 0 <= i < n ==> !(#[trigger] snapshot_of(events[i], id) matches Some(p) && p > 0))
            ==> counts_of(events, id, n).initial_population == 0,
        forall|i: int|
            0 <= i < n && (#[trigger] snapshot_of(events[i], id) matches Some(p) && p > 0) && (forall|j: int|
                0 <= j < i ==> !(#[trigger] snapshot_of(events[j], id) matches Some(q) && q > 0))
                ==> snapshot_of(events[i], id) == Some(counts_of(events, id, n).initial_population),
    decreases n,
{
    if n > 0 {
        let m = (n - 1) as nat;
        lemma_initial(events, id, m);
        lemma_population_step(events, id, n);
    }
}

/// A digest's populations come from the village's state snapshots: the peak
/// is at least every reported population and is one of them (or zero with
/// none); the final population is that of the last snapshot (zero with
/// none); the initial population is that of the first snapshot that reports
/// anyone (zero while none does).
pub proof fn law_digest_populations(events: Seq<Event>, id: Seq<char>, n: nat)
    ensures
        ({
            let c = counts_of(events, id, n);
            &&& forall|i: int|
                0 <= i < n && (#[trigger] snapshot_of(events[i], id)) is Some ==> snapshot_of(events[i], id)->0
                    <= c.peak_population
            &&& c.peak_population == 0 || exists|i: int|
                0 <= i < n && #[trigger] snapshot_of(events[i], id) == Some(c.peak_population)
            &&& (forall|i: int| 0 <= i < n ==> (#[trigger] snapshot_of(events[i], id)) is None) ==> c.final_population
                == 0
            &&& forall|i: int|
                0 <= i < n && (#[trigger] snapshot_of(events[i], id)) is Some && (forall|j: int|
                    i < j < n ==> (#[trigger] snapshot_of(events[j], id)) is None) ==> snapshot_of(events[i], id)
                    == Some(c.final_population)
            &&& (forall|i: int| 0 <= i < n ==> !(#[trigger] snapshot_of(events[i], id) matches Some(p) && p > 0))
                ==> c.initial_population == 0
            &&& forall|i: int|
                0 <= i < n && (#[trigger] snapshot_of(events[i], id) matches Some(p) && p > 0) && (forall|j: int|
                    0 <= j < i ==> !(#[trigger] snapshot_of(events[j], id) matches Some(q) && q > 0))
                    ==> snapshot_of(events[i], id) == Some(c.initial_population)
        }),
{
    lemma_peak(events, id, n);
    lemma_final(events, id, n);
    lemma_initial(events, id, n);
}

/// The running sum, in event order, of what the village's trades on `side`
/// among the first `n` events came to, price times quantity.
pub open spec fn trade_values(events: Seq<Event>, id: Seq<char>, side: TradeSide, n: nat) -> Dec
    decreases n,
{
    if n == 0 {
        Dec { mantissa: 0, scale: 0 }
    } else {
        let prev = trade_values(events, id, side, (n - 1) as nat);
        let e = events[n - 1];
        if e.village_id@ == id {
            match e.event_type {
                EventType::TradeExecuted { quantity, price, side: s, .. } => if s == side {
                    decimal_sum(prev, decimal_product(price, quantity))
                } else {
                    prev
                },
                _ => prev,
            }
        } else {
            prev
        }
    }
}

/// The running sum, in event order, of the amounts of `resource` that the
/// village produced (or, with `produced` false, consumed) among the first
/// `n` events.
pub open spec fn resource_amounts(
    events: Seq<Event>,
    id: Seq<char>,
    resource: ResourceType,
    produced: bool,
    n: nat,
) -> Dec
    decreases n,
{
    if n == 0 {
        Dec { mantissa: 0, scale: 0 }
    } else {
        let prev = resource_amounts(events, id, resource, produced, (n - 1) as nat);
        let e = events[n - 1];
        if e.village_id@ == id {
            match e.event_type {
                EventType::ResourceProduced { resource: r, amount, .. } => if produced && r == resource {
                    decimal_sum(prev, amount)
                } else {
                    prev
                },
                EventType::ResourceConsumed { resource: r, amount, .. } => if !produced && r == resource {
                    decimal_sum(prev, amount)
                } else {
                    prev
                },
                _ => prev,
            }
        } else {
            prev
        }
    }
}

/// A digest adds each amount up where it belongs: what the village spent is
/// the sum of its purchases and what it earned the sum of its sales, each
/// price times quantity; what it produced and consumed of food and of wood
/// are the sums of its production and consumption of each resource.
pub proof fn law_digest_sums_by_kind(events: Seq<Event>, id: Seq<char>, n: nat)
    ensures
        ({
            let c = counts_of(events, id, n);
            &&& c.total_spent == trade_values(events, id, TradeSide::Buy, n)
            &&& c.total_earned == trade_values(events, id, TradeSide::Sell, n)
            &&& c.food_produced == resource_amounts(events, id, ResourceType::Food, true, n)
            &&& c.wood_produced == resource_amounts(events, id, ResourceType::Wood, true, n)
            &&& c.food_consumed == resource_amounts(events, id, ResourceType::Food, false, n)
            &&& c.wood_consumed == resource_amounts(events, id, ResourceType::Wood, false, n)
        }),
    decreases n,
{
    if n > 0 {
        law_digest_sums_by_kind(events, id, (n - 1) as nat);
    }
}

/// A village's tally counts each of its events once, under its own kind: its
/// starvation and shelter deaths are exactly its deaths from each cause and
/// its total deaths their sum; its births, completed houses and executed
/// trades are exactly its events of each of those kinds.
pub proof fn law_tally_counts_by_kind(
    events: Seq<Event>,
    id: Seq<char>,
    initial_population: usize,
    days: usize,
    n: nat,
)
    requires
        n <= events.len(),
        n <= usize::MAX,
    ensures
        ({
            let t = tally_of(events, id, initial_population, days, n);
            let starved = village_events(events, id, death_from(DeathCause::Starvation), n);
            let exposed = village_events(events, id, death_from(DeathCause::NoShelter), n);
            &&& t.starvation_deaths == starved
            &&& t.shelter_deaths == exposed
            &&& t.total_deaths == starved + exposed
            &&& t.total_births == village_events(events, id, birth(), n)
            &&& t.houses_built == village_events(events, id, house_completed(), n)
            &&& t.trades_executed == village_events(events, id, trade_on(TradeSide::Buy), n)
                + village_events(events, id, trade_on(TradeSide::Sell), n)
        }),
    decreases n,
{
    if n > 0 {
        let m = (n - 1) as nat;
        law_tally_counts_by_kind(events, id, initial_population, days, m);
        lemma_village_events_disjoint(events, id, death_from(DeathCause::Starvation), death_from(DeathCause::NoShelter), m);
        lemma_village_events_disjoint(events, id, trade_on(TradeSide::Buy), trade_on(TradeSide::Sell), m);
        lemma_village_events_at_most(events, id, birth(), m);
        lemma_village_events_at_most(events, id, house_completed(), m);
    }
}

/// Greedy puts every worker-day on one resource and none on construction:
/// on food when a worker-day of food (2.0 units at the last food price, 1.0
/// without one) is worth more than a worker-day of wood (0.1 units at the
/// last wood price, 5.0 without one), and on wood otherwise, so the resource
/// that gets the worker-days is worth at least as much as the other.
pub proof fn law_greedy_produces_the_dearer(v: VillageState, m: MarketState)
    ensures
        ({
            let a = greedy_decision(v, m).allocation;
            let food_value = decimal_product(
                Dec { mantissa: 20, scale: 1 },
                match m.last_food_price {
                    Some(p) => p,
                    None => Dec { mantissa: 10, scale: 1 },
                },
            );
            let wood_value = decimal_product(
                Dec { mantissa: 1, scale: 1 },
                match m.last_wood_price {
                    Some(p) => p,
                    None => Dec { mantissa: 50, scale: 1 },
                },
            );
            &&& a.construction.v() == 0
            &&& food_value.v() > wood_value.v() ==> a.food == v.worker_days && a.wood.v() == 0
            &&& food_value.v() <= wood_value.v() ==> a.wood == v.worker_days && a.food.v() == 0
        }),
{
}

/// Survival meets a shortage first: with food for under 5 days every
/// worker-day goes to food; with enough food but wood for under 5 days every
/// worker-day goes to wood; it builds, with a tenth of the worker-days, only
/// when both stocks last at least 5 days and beyond their targets. Otherwise
/// it splits the worker-days by weight: 0.7 for food below its target, else
/// 0.4; 0.5 for wood below its target, else 0.3.
pub proof fn law_survival_meets_shortages_first(s: SurvivalStrategy, v: VillageState)
    ensures
        ({
            let a = survival_allocation(s, v);
            let food_weight = if days_of_food(v) < s.min_food_days {
                Dec { mantissa: 7, scale: 1 }
            } else {
                Dec { mantissa: 4, scale: 1 }
            };
            let wood_weight = if days_of_wood(v) < s.min_wood_days {
                Dec { mantissa: 5, scale: 1 }
            } else {
                Dec { mantissa: 3, scale: 1 }
            };
            &&& days_of_food(v) < 5 ==> a.food == v.worker_days && a.wood.v() == 0 && a.construction.v() == 0
            &&& days_of_food(v) >= 5 && days_of_wood(v) < 5 ==> a.wood == v.worker_days && a.food.v() == 0
                && a.construction.v() == 0
            &&& a.construction.v() != 0 ==> days_of_food(v) >= 5 && days_of_wood(v) >= 5 && days_of_food(v)
                > s.min_food_days && days_of_wood(v) > s.min_wood_days
            &&& days_of_food(v) >= 5 && days_of_wood(v) >= 5 && days_of_food(v) > s.min_food_days && days_of_wood(v)
                > s.min_wood_days ==> a.construction == decimal_product(v.worker_days, Dec { mantissa: 1, scale: 1 })
            &&& days_of_food(v) >= 5 && days_of_wood(v) >= 5 && (days_of_food(v) <= s.min_food_days || days_of_wood(v)
                <= s.min_wood_days) ==> a.construction.v() == 0 && a.food == decimal_product(
                v.worker_days,
                decimal_quotient(food_weight, decimal_sum(food_weight, wood_weight)),
            ) && a.wood == decimal_product(
                v.worker_days,
                decimal_quotient(wood_weight, decimal_sum(wood_weight, food_weight)),
            )
        }),
{
}

/// Growth needs houses when there are more workers per house (counting at
/// least one house) than its target, or fewer free places than its buffer.
/// It offers wood (20 units at 0.85 times the last price, 5.0 without one)
/// exactly when it holds over 100 wood and needs no houses. It splits the
/// worker-days 30% wood, 50% food and 20% construction when it needs houses,
/// else 40% wood and 60% food; it bids for 20 wood at 1.2 times the last
/// wood price (1.3 when short of free places) exactly when it needs houses,
/// holds under 30 wood and over 50 money; it bids for 30 days of food (at
/// most 100) at 1.15 times the last food price (1.0 without one) exactly
/// when food lasts under 30 days and it has over 30 money; it never offers
/// food.
pub proof fn law_growth_keeps_wood_for_houses(s: GrowthStrategy, v: VillageState, m: MarketState)
    requires
        s.accepts(v, m),
    ensures
        ({
            let d = growth_decision(s, v, m);
            let houses = if v.houses > 1 {
                v.houses
            } else {
                1
            };
            let per_house = decimal_quotient(whole(v.workers as int), whole(houses as int));
            let free: int = if v.house_capacity > v.workers {
                v.house_capacity - v.workers
            } else {
                0
            };
            let need = per_house.v() > s.target_worker_to_house_ratio.v() || free < s.house_buffer;
            &&& d.wood_ask is Some <==> v.wood.v() > 100 * unit() && !need
            &&& need ==> d.wood_ask is None
            &&& d.wood_ask matches Some((p, q)) ==> q == 20 && p == quoted(
                m.last_wood_price,
                Dec { mantissa: 50, scale: 1 },
                Dec { mantissa: 85, scale: 2 },
            )
            &&& need ==> d.allocation.construction == decimal_product(v.worker_days, Dec { mantissa: 2, scale: 1 })
            &&& !need ==> d.allocation.construction.v() == 0
            &&& d.allocation.food == decimal_product(
                v.worker_days,
                if need {
                    Dec { mantissa: 5, scale: 1 }
                } else {
                    Dec { mantissa: 6, scale: 1 }
                },
            )
            &&& d.allocation.wood == decimal_product(
                v.worker_days,
                if need {
                    Dec { mantissa: 3, scale: 1 }
                } else {
                    Dec { mantissa: 4, scale: 1 }
                },
            )
            &&& d.wood_bid is Some <==> need && v.wood.v() < 30 * unit() && v.money.v() > 50 * unit()
            &&& d.wood_bid matches Some((p, q)) ==> q == 20 && p == quoted(
                m.last_wood_price,
                Dec { mantissa: 50, scale: 1 },
                if free < s.house_buffer {
                    Dec { mantissa: 13, scale: 1 }
                } else {
                    Dec { mantissa: 12, scale: 1 }
                },
            )
            &&& d.food_bid is Some <==> days_of_food(v) < 30 && v.money.v() > 30 * unit()
            &&& d.food_bid matches Some((p, q)) ==> q == at_most(30 * v.workers, 100) && p == quoted(
                m.last_food_price,
                Dec { mantissa: 10, scale: 1 },
                Dec { mantissa: 115, scale: 2 },
            )
            &&& d.food_ask is None
        }),
{
    lemma_unit();
}

/// Trading bids for food only when it lasts under 10 days, and then for
/// fifteen days' worth less what is in stock: the days short of fifteen
/// times the number of workers, at most 50 units, at 0.98 times the last
/// food price (1.0 without one) times its multiplier; it places that bid
/// whenever food lasts under 10 days, it has over 20 money, the quantity is
/// positive and it can pay for it with a fifth of its money held back.
pub proof fn law_trading_buys_food_for_fifteen_days(s: TradingStrategy, v: VillageState, m: MarketState)
    requires
        s.accepts(v, m),
    ensures
        ({
            let d = trading_decision(s, v, m);
            let fd = days_of_food(v) as int;
            let wanted = (15 - fd) * v.workers;
            let q = if wanted < 50 {
                wanted
            } else {
                50
            };
            let p = decimal_product(
                decimal_product(
                    match m.last_food_price {
                        Some(f) => f,
                        None => Dec { mantissa: 10, scale: 1 },
                    },
                    Dec { mantissa: 98, scale: 2 },
                ),
                s.price_multiplier,
            );
            &&& d.food_bid is Some ==> fd < 10 && v.money.v() > 20 * unit() && q > 0
            &&& fd < 10 ==> (d.food_bid is Some <==> v.money.v() > 20 * unit() && q > 0 && affordable(
                v.money,
                p,
                q as u32,
                Dec { mantissa: 2, scale: 1 },
            ))
            &&& d.food_bid matches Some((price, quantity)) ==> quantity == q && price == p
        }),
{
}

/// Trading's split and its other orders. A tenth of the worker-days goes to
/// construction; of the rest, 80% goes to the resource with more first-rate
/// slots and 20% to the other, and with as many first-rate slots for both,
/// 70% to the resource whose next unit costs fewer worker-days (wood on a
/// tie) and 30% to the other. It bids for wood (15 days less what it has, at
/// most 20) at 0.98 times the price exactly when wood lasts under 10 days, it
/// has over 20 money, the quantity is positive and it can pay with a fifth
/// held back. It offers the trade fraction of its food (at most 50) when
/// specialised in food, or with food for over 20 days and wood for under 15,
/// holding over 30 food; and the trade fraction of its wood (at most 30) when
/// specialised in wood, or with wood for over 20 days and food for under 15,
/// holding over 20 wood; both at 1.02 times the price and the multiplier.
/// Wood without a market price is valued at the ratio of the marginal costs.
pub proof fn law_trading_split_and_orders(s: TradingStrategy, v: VillageState, m: MarketState)
    requires
        s.accepts(v, m),
    ensures
        ({
            let d = trading_decision(s, v, m);
            let a = d.allocation;
            let construction = decimal_product(v.worker_days, Dec { mantissa: 1, scale: 1 });
            let remaining = decimal_difference(v.worker_days, construction);
            let estimate = whole_u32(decimal_product(remaining, Dec { mantissa: 5, scale: 1 }));
            let food_cost = marginal_cost(estimate, v.food_slots, Dec { mantissa: 20, scale: 1 });
            let wood_cost = marginal_cost(estimate, v.wood_slots, Dec { mantissa: 1, scale: 1 });
            let food_share = if v.food_slots.0 > v.wood_slots.0 {
                Dec { mantissa: 8, scale: 1 }
            } else if v.wood_slots.0 > v.food_slots.0 {
                Dec { mantissa: 2, scale: 1 }
            } else if food_cost.v() < wood_cost.v() {
                Dec { mantissa: 7, scale: 1 }
            } else {
                Dec { mantissa: 3, scale: 1 }
            };
            let wood_share = if v.food_slots.0 > v.wood_slots.0 {
                Dec { mantissa: 2, scale: 1 }
            } else if v.wood_slots.0 > v.food_slots.0 {
                Dec { mantissa: 8, scale: 1 }
            } else if food_cost.v() < wood_cost.v() {
                Dec { mantissa: 3, scale: 1 }
            } else {
                Dec { mantissa: 7, scale: 1 }
            };
            let fd = days_of_food(v) as int;
            let wd = days_of_wood(v) as int;
            let food_base = match m.last_food_price {
                Some(f) => f,
                None => Dec { mantissa: 10, scale: 1 },
            };
            let wood_base = match m.last_wood_price {
                Some(w) => w,
                None => decimal_quotient(food_cost, wood_cost),
            };
            let wood_q = at_most(15 - wd, 20);
            let wood_p = decimal_product(decimal_product(wood_base, Dec { mantissa: 98, scale: 2 }), s.price_multiplier);
            let food_ask_q = at_most(whole_u32(decimal_product(v.food, s.max_trade_fraction)) as int, 50);
            let wood_ask_q = at_most(whole_u32(decimal_product(v.wood, s.max_trade_fraction)) as int, 30);
            &&& a.construction == construction
            &&& a.food == decimal_product(remaining, food_share)
            &&& a.wood == decimal_product(remaining, wood_share)
            &&& d.wood_bid is Some <==> wd < 10 && v.money.v() > 20 * unit() && wood_q > 0 && affordable(
                v.money,
                wood_p,
                wood_q as u32,
                Dec { mantissa: 2, scale: 1 },
            )
            &&& d.wood_bid matches Some((p, q)) ==> q == wood_q && p == wood_p
            &&& d.food_ask is Some <==> (v.food_slots.0 > v.wood_slots.0 || fd > 20 && wd < 15) && v.food.v() > 30
                * unit() && food_ask_q > 0
            &&& d.food_ask matches Some((p, q)) ==> q == food_ask_q && p == decimal_product(
                decimal_product(food_base, Dec { mantissa: 102, scale: 2 }),
                s.price_multiplier,
            )
            &&& d.wood_ask is Some <==> (v.wood_slots.0 > v.food_slots.0 || wd > 20 && fd < 15) && v.wood.v() > 20
                * unit() && wood_ask_q > 0
            &&& d.wood_ask matches Some((p, q)) ==> q == wood_ask_q && p == decimal_product(
                decimal_product(wood_base, Dec { mantissa: 102, scale: 2 }),
                s.price_multiplier,
            )
        }),
{
}

/// The smaller of a count and a cap.
pub open spec fn at_most(x: int, cap: int) -> int {
    if x < cap {
        x
    } else {
        cap
    }
}

/// Greedy buys only in an emergency and sells every surplus: it bids for
/// five days of food per worker (at most 50) at 1.5 times the last food
/// price (1.0 without one) exactly when it holds less than a day's food and
/// over 10 money; for 10 wood at 1.5 times the last wood price (5.0 without
/// one) exactly when it holds under 1 wood, has houses and over 10 money; it
/// offers the whole part of its food beyond a day's worth (at most 100)
/// exactly when it holds over two days' worth and that part is positive, and
/// the whole part of its wood beyond 1 (at most 50) exactly when it holds
/// over 2 and that part is positive, both at 0.8 times the last price.
pub proof fn law_greedy_orders(g: GreedyStrategy, v: VillageState, m: MarketState)
    requires
        g.accepts(v, m),
    ensures
        ({
            let d = greedy_decision(v, m);
            let w = v.workers as int;
            let food_q = at_most(whole_u32(decimal_difference(v.food, whole(w))) as int, 100);
            let wood_q = at_most(whole_u32(decimal_difference(v.wood, Dec { mantissa: 1, scale: 0 })) as int, 50);
            &&& d.food_bid is Some <==> v.food.v() < w * unit() && v.money.v() > 10 * unit()
            &&& d.food_bid matches Some((p, q)) ==> q == at_most(5 * w, 50) && p == quoted(
                m.last_food_price,
                Dec { mantissa: 10, scale: 1 },
                Dec { mantissa: 15, scale: 1 },
            )
            &&& d.wood_bid is Some <==> v.wood.v() < unit() && v.houses > 0 && v.money.v() > 10 * unit()
            &&& d.wood_bid matches Some((p, q)) ==> q == 10 && p == quoted(
                m.last_wood_price,
                Dec { mantissa: 50, scale: 1 },
                Dec { mantissa: 15, scale: 1 },
            )
            &&& d.food_ask is Some <==> v.food.v() > 2 * w * unit() && food_q > 0
            &&& d.food_ask matches Some((p, q)) ==> q == food_q && p == quoted(
                m.last_food_price,
                Dec { mantissa: 10, scale: 1 },
                Dec { mantissa: 8, scale: 1 },
            )
            &&& d.wood_ask is Some <==> v.wood.v() > 2 * unit() && wood_q > 0
            &&& d.wood_ask matches Some((p, q)) ==> q == wood_q && p == quoted(
                m.last_wood_price,
                Dec { mantissa: 50, scale: 1 },
                Dec { mantissa: 8, scale: 1 },
            )
        }),
{
    lemma_unit();
}

/// Survival's orders: it bids for food exactly when food lasts under 10 days
/// and it has over 20 money, for the days short of its target times the
/// number of workers (at most 50), at 1.1 times the last food price (1.0
/// without one) when it can pay for that with a fifth of its money held back,
/// else at no more than that; it bids for wood exactly when wood lasts under
/// 10 days and it has over 20 money, for the days short of its target (at
/// most 20), at no more than 1.1 times the last wood price (5.0 without one);
/// it offers food only when food lasts over twice its target and wood only
/// when wood does, at 0.9 times the last price, at most 50 food or 20 wood.
pub proof fn law_survival_orders(s: SurvivalStrategy, v: VillageState, m: MarketState)
    requires
        s.accepts(v, m),
    ensures
        ({
            let d = survival_decision(s, v, m);
            let fd = days_of_food(v) as int;
            let wd = days_of_wood(v) as int;
            let food_q = at_most((s.min_food_days - fd) * v.workers, 50);
            let food_price = quoted(m.last_food_price, Dec { mantissa: 10, scale: 1 }, Dec { mantissa: 11, scale: 1 });
            let wood_price = quoted(m.last_wood_price, Dec { mantissa: 50, scale: 1 }, Dec { mantissa: 11, scale: 1 });
            &&& d.food_bid is Some <==> fd < 10 && v.money.v() > 20 * unit()
            &&& d.food_bid matches Some((p, q)) ==> q == food_q && p.v() <= food_price.v() && (affordable(
                v.money,
                food_price,
                q,
                Dec { mantissa: 2, scale: 1 },
            ) ==> p == food_price)
            &&& d.wood_bid is Some <==> wd < 10 && v.money.v() > 20 * unit()
            &&& d.wood_bid matches Some((p, q)) ==> q == at_most(s.min_wood_days - wd, 20) && p.v() <= wood_price.v()
            &&& d.food_ask matches Some((p, q)) ==> fd > 2 * s.min_food_days && 0 < q <= 50 && p == quoted(
                m.last_food_price,
                Dec { mantissa: 10, scale: 1 },
                Dec { mantissa: 9, scale: 1 },
            )
            &&& d.wood_ask matches Some((p, q)) ==> wd > 2 * s.min_wood_days && 0 < q <= 20 && p == quoted(
                m.last_wood_price,
                Dec { mantissa: 50, scale: 1 },
                Dec { mantissa: 9, scale: 1 },
            )
        }),
{
}

/// The default strategy puts 70% of the worker-days on wood, 20% on food
/// and 10% on construction, and places no orders.
pub proof fn law_default_fixed_shares(v: VillageState, m: MarketState)
    ensures
        ({
            let d = StrategyKind::Default(DefaultStrategy).decision(v, m);
            &&& d.allocation.wood == decimal_product(v.worker_days, Dec { mantissa: 7, scale: 1 })
            &&& d.allocation.food == decimal_product(v.worker_days, Dec { mantissa: 2, scale: 1 })
            &&& d.allocation.construction == decimal_product(v.worker_days, Dec { mantissa: 1, scale: 1 })
            &&& d.wood_bid is None && d.wood_ask is None && d.food_bid is None && d.food_ask is None
        }),
{
}

/// Balanced splits the worker-days in proportion to three needs: food's is
/// `1 / (1 + days of food / 10)` times the food weight, wood's `1 / (1 +
/// days of wood / 20)` times the wood weight, and construction's 0.3 (when
/// workers outnumber places, else 0.1) times the construction weight plus
/// 0.02 per house times the repair weight, at most 0.2. It bids for 15 days
/// of food less its stock, per worker (at most 50), exactly when food lasts
/// under 15 days and it has over 30 money, and for 15 days of wood less its
/// stock (at most 20) exactly when wood lasts under 15 days and it has over
/// 30 money, at 1.05 times the last price; it offers food only when food
/// lasts over 30 days and wood only when wood does, at 0.95 times the last
/// price, at most 50 food or 20 wood.
pub proof fn law_balanced_in_proportion_to_need(b: BalancedStrategy, v: VillageState, m: MarketState)
    requires
        b.accepts(v, m),
    ensures
        ({
            let d = balanced_decision(b, v, m);
            let one = Dec { mantissa: 1, scale: 0 };
            let fd = days_of_food(v) as int;
            let wd = days_of_wood(v) as int;
            let food_need = decimal_product(
                decimal_quotient(one, decimal_sum(one, decimal_quotient(whole(fd), Dec { mantissa: 10, scale: 0 }))),
                b.food_weight,
            );
            let wood_need = decimal_product(
                decimal_quotient(one, decimal_sum(one, decimal_quotient(whole(wd), Dec { mantissa: 20, scale: 0 }))),
                b.wood_weight,
            );
            let house_need = decimal_product(
                if v.workers > v.house_capacity {
                    Dec { mantissa: 3, scale: 1 }
                } else {
                    Dec { mantissa: 1, scale: 1 }
                },
                b.construction_weight,
            );
            let repair = decimal_product(decimal_product(whole(v.houses as int), Dec { mantissa: 2, scale: 2 }), b.repair_weight);
            let repair_need = if repair.v() > 2 * unit() / 10 {
                Dec { mantissa: 2, scale: 1 }
            } else {
                repair
            };
            let build_need = decimal_sum(house_need, repair_need);
            let total = decimal_sum(decimal_sum(food_need, wood_need), build_need);
            &&& d.allocation.food == decimal_product(v.worker_days, decimal_quotient(food_need, total))
            &&& d.allocation.wood == decimal_product(v.worker_days, decimal_quotient(wood_need, total))
            &&& d.allocation.construction == decimal_product(v.worker_days, decimal_quotient(build_need, total))
            &&& d.food_bid is Some <==> fd < 15 && v.money.v() > 30 * unit()
            &&& d.food_bid matches Some((p, q)) ==> q == at_most((15 - fd) * v.workers, 50) && p == quoted(
                m.last_food_price,
                Dec { mantissa: 10, scale: 1 },
                Dec { mantissa: 105, scale: 2 },
            )
            &&& d.wood_bid is Some <==> wd < 15 && v.money.v() > 30 * unit()
            &&& d.wood_bid matches Some((p, q)) ==> q == at_most(15 - wd, 20) && p == quoted(
                m.last_wood_price,
                Dec { mantissa: 50, scale: 1 },
                Dec { mantissa: 105, scale: 2 },
            )
            &&& d.food_ask matches Some((p, q)) ==> fd > 30 && 0 < q <= 50 && p == quoted(
                m.last_food_price,
                Dec { mantissa: 10, scale: 1 },
                Dec { mantissa: 95, scale: 2 },
            )
            &&& d.wood_ask matches Some((p, q)) ==> wd > 30 && 0 < q <= 20 && p == quoted(
                m.last_wood_price,
                Dec { mantissa: 50, scale: 1 },
                Dec { mantissa: 95, scale: 2 },
            )
        }),
{
    lemma_unit();
}

/// The village's trading result among the first `n` events, in event order:
/// each sale adds its quantity times its price, each purchase takes it away.
pub open spec fn trading_result(events: Seq<Event>, id: Seq<char>, n: nat) -> Dec
    decreases n,
{
    if n == 0 {
        Dec { mantissa: 0, scale: 0 }
    } else {
        let prev = trading_result(events, id, (n - 1) as nat);
        let e = events[n - 1];
        if e.village_id@ == id {
            match e.event_type {
                EventType::TradeExecuted { quantity, price, side, .. } => match side {
                    TradeSide::Sell => decimal_sum(prev, decimal_product(quantity, price)),
                    TradeSide::Buy => decimal_difference(prev, decimal_product(quantity, price)),
                },
                _ => prev,
            }
        } else {
            prev
        }
    }
}

/// A village's tally adds each amount up where it belongs: what it produced
/// and consumed of food and of wood are the sums of its production and
/// consumption of each resource, and its trade profit adds what each sale
/// brought in and takes away what each purchase cost.
pub proof fn law_tally_sums_by_kind(
    events: Seq<Event>,
    id: Seq<char>,
    initial_population: usize,
    days: usize,
    n: nat,
)
    ensures
        ({
            let t = tally_of(events, id, initial_population, days, n);
            &&& t.total_food_produced == resource_amounts(events, id, ResourceType::Food, true, n)
            &&& t.total_wood_produced == resource_amounts(events, id, ResourceType::Wood, true, n)
            &&& t.total_food_consumed == resource_amounts(events, id, ResourceType::Food, false, n)
            &&& t.total_wood_consumed == resource_amounts(events, id, ResourceType::Wood, false, n)
            &&& t.trade_profit == trading_result(events, id, n)
        }),
    decreases n,
{
    if n > 0 {
        law_tally_sums_by_kind(events, id, initial_population, days, (n - 1) as nat);
    }
}

/// Among the first `n` events, one of the village's is counted.
pub open spec fn has_counted_event(events: Seq<Event>, n: nat, id: Seq<char>) -> bool {
    exists|i: int| 0 <= i < n && counted(#[trigger] events[i].event_type) && events[i].village_id@ == id
}

/// A digest has one entry per village that has a counted event, and no
/// other: no village is listed twice, each listed village has a counted
/// event, and the village of each counted event is listed.
pub proof fn law_digest_lists_each_village_once(events: Seq<Event>, n: nat)
    ensures
        ({
            let ids = villages_at(events, n);
            &&& forall|a: int, b: int| 0 <= a < b < ids.len() ==> ids[a] != ids[b]
            &&& forall|k: int| 0 <= k < ids.len() ==> has_counted_event(events, n, #[trigger] ids[k])
            &&& forall|i: int| 0 <= i < n && counted(#[trigger] events[i].event_type) ==> ids.contains(events[i].village_id@)
        }),
    decreases n,
{
    if n > 0 {
        let m = (n - 1) as nat;
        law_digest_lists_each_village_once(events, m);
        let prev = villages_at(events, m);
        let ids = villages_at(events, n);
        assert forall|k: int| 0 <= k < ids.len() implies has_counted_event(events, n, #[trigger] ids[k]) by {
            if k < prev.len() {
                let i = choose|i: int| 0 <= i < m && counted(#[trigger] events[i].event_type) && events[i].village_id@ == prev[k];
                assert(0 <= i < n && counted(events[i].event_type) && events[i].village_id@ == ids[k]);
            } else {
                assert(0 <= m < n && counted(events[m as int].event_type) && events[m as int].village_id@ == ids[k]);
            }
        }
        assert forall|i: int| 0 <= i < n && counted(#[trigger] events[i].event_type) implies ids.contains(
            events[i].village_id@,
        ) by {
            if i < m {
                let k = choose|k: int| 0 <= k < prev.len() && prev[k] == events[i].village_id@;
                assert(ids[k] == events[i].village_id@);
            } else if !prev.contains(events[i].village_id@) {
                assert(ids[prev.len() as int] == events[i].village_id@);
            }
        }
    }
}

/// A digest's largest tick is at least the tick of every event and is the
/// tick of one of them, or zero for an empty log.
pub proof fn law_digest_max_tick(events: Seq<Event>, n: nat)
    ensures
        forall|i: int| 0 <= i < n ==> (#[trigger] events[i]).tick <= max_tick_at(events, n),
        n == 0 ==> max_tick_at(events, n) == 0,
        n > 0 ==> exists|i: int| 0 <= i < n && (#[trigger] events[i]).tick == max_tick_at(events, n),
    decreases n,
{
    if n > 0 {
        let m = (n - 1) as nat;
        law_digest_max_tick(events, m);
        if m > 0 && max_tick_at(events, n) == max_tick_at(events, m) {
            let i = choose|i: int| 0 <= i < m && (#[trigger] events[i]).tick == max_tick_at(events, m);
            assert(events[i].tick == max_tick_at(events, n));
        } else {
            assert(events[m as int].tick == max_tick_at(events, n));
        }
    }
}

} // verus!
