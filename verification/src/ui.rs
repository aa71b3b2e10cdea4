//! The event viewer's state: villages rebuilt from a recorded run as the
//! viewer steps through its ticks, with the last few events as text.
use crate::decimal::{abs_int, dec_add, dec_div, decimal_quotient, decimal_sum, lemma_rounded_size, lemma_unit, unit, Dec, MAX_MANTISSA};
use crate::analysis::max_tick_at;
use crate::events::{decimals_ok, event_text, DeathCause, Event, EventType, ResourceType, TradeSide};
use crate::metrics::{small, zero_dec};
use crate::simulation::whole;
use crate::text::{digits, usize_text};
use std::collections::VecDeque;
use vstd::prelude::*;

verus! {

/// The viewer's mode.
#[derive(Debug, Clone, Copy, PartialEq, Eq, Structural)]
pub enum UIMode {
    /// Playing through recorded events.
    Replay,
    /// Following a running simulation.
    Live,
    /// Stepping by hand.
    Paused,
    /// Looking over a finished simulation.
    Analysis,
}

/// How many amounts a resource history keeps.
pub const HISTORY_LEN: usize = 50;

/// Recent production and consumption of one resource.
#[derive(Debug)]
pub struct ResourceHistory {
    pub last_production: Dec,
    pub last_consumption: Dec,
    /// The last amounts produced, oldest first, at most [`HISTORY_LEN`].
    pub production_history: VecDeque<Dec>,
    /// The last amounts consumed, oldest first, at most [`HISTORY_LEN`].
    pub consumption_history: VecDeque<Dec>,
}

/// What a resource history holds.
pub struct HistoryView {
    pub last_production: Dec,
    pub last_consumption: Dec,
    pub production: Seq<Dec>,
    pub consumption: Seq<Dec>,
}

impl View for ResourceHistory {
    type V = HistoryView;

    open spec fn view(&self) -> HistoryView {
        HistoryView {
            last_production: self.last_production,
            last_consumption: self.last_consumption,
            production: self.production_history@,
            consumption: self.consumption_history@,
        }
    }
}

/// `s` without its first element when it is longer than `cap`.
pub open spec fn kept<T>(s: Seq<T>, cap: nat) -> Seq<T> {
    if s.len() > cap {
        s.drop_first()
    } else {
        s
    }
}

/// An empty history: nothing recorded, the last amounts zero.
pub open spec fn empty_history() -> HistoryView {
    HistoryView {
        last_production: zero_dec(),
        last_consumption: zero_dec(),
        production: Seq::empty(),
        consumption: Seq::empty(),
    }
}

/// The history after a production of `amount`.
pub open spec fn produced_into(h: HistoryView, amount: Dec) -> HistoryView {
    HistoryView {
        last_production: amount,
        production: kept(h.production.push(amount), HISTORY_LEN as nat),
        ..h
    }
}

/// The history after a consumption of `amount`.
pub open spec fn consumed_into(h: HistoryView, amount: Dec) -> HistoryView {
    HistoryView {
        last_consumption: amount,
        consumption: kept(h.consumption.push(amount), HISTORY_LEN as nat),
        ..h
    }
}

/// The last `k` amounts, newest first, added up from zero.
pub open spec fn newest_sum(s: Seq<Dec>, k: nat) -> Dec
    decreases k,
{
    if k == 0 {
        zero_dec()
    } else {
        decimal_sum(newest_sum(s, (k - 1) as nat), s[s.len() - k])
    }
}

/// The average of the last `ticks` amounts, or of all of them when there are
/// fewer; zero when there are none.
pub open spec fn recent_average(s: Seq<Dec>, ticks: nat) -> Dec {
    let count = if s.len() < ticks {
        s.len()
    } else {
        ticks
    };
    if count == 0 {
        zero_dec()
    } else {
        decimal_quotient(newest_sum(s, count), whole(count as int))
    }
}

/// Every amount is small.
pub open spec fn all_small(s: Seq<Dec>) -> bool {
    forall|k: int| 0 <= k < s.len() ==> small(#[trigger] s[k])
}

impl ResourceHistory {
    /// Nothing recorded yet.
    pub fn new() -> (r: Self)
        ensures
            r@ == empty_history(),
    {
        ResourceHistory {
            last_production: Dec::zero(),
            last_consumption: Dec::zero(),
            production_history: VecDeque::new(),
            consumption_history: VecDeque::new(),
        }
    }

    /// At most [`HISTORY_LEN`] amounts of each kind.
    pub open spec fn wf(&self) -> bool {
        self.production_history@.len() <= HISTORY_LEN && self.consumption_history@.len()
            <= HISTORY_LEN
    }

    /// Records a production, dropping the oldest beyond [`HISTORY_LEN`].
    pub fn record_production(&mut self, amount: Dec)
        requires
            old(self).wf(),
        ensures
            final(self).wf(),
            final(self)@ == produced_into(old(self)@, amount),
    {
        self.last_production = amount;
        self.production_history.push_back(amount);
        if self.production_history.len() > HISTORY_LEN {
            self.production_history.pop_front();
        }
    }

    /// Records a consumption, dropping the oldest beyond [`HISTORY_LEN`].
    pub fn record_consumption(&mut self, amount: Dec)
        requires
            old(self).wf(),
        ensures
            final(self).wf(),
            final(self)@ == consumed_into(old(self)@, amount),
    {
        self.last_consumption = amount;
        self.consumption_history.push_back(amount);
        if self.consumption_history.len() > HISTORY_LEN {
            self.consumption_history.pop_front();
        }
    }

    /// Whether every recorded amount is small enough to average.
    pub fn averageable(&self) -> (r: bool)
        ensures
            r == (all_small(self.production_history@) && all_small(self.consumption_history@)),
    {
        all_small_in(&self.production_history) && all_small_in(&self.consumption_history)
    }

    /// The average production over the last `ticks` records.
    pub fn avg_production(&self, ticks: usize) -> (r: Dec)
        requires
            self.wf(),
            all_small(self.production_history@),
        ensures
            r == recent_average(self.production_history@, ticks as nat),
    {
        average_of_newest(&self.production_history, ticks)
    }

    /// The average consumption over the last `ticks` records.
    pub fn avg_consumption(&self, ticks: usize) -> (r: Dec)
        requires
            self.wf(),
            all_small(self.consumption_history@),
        ensures
            r == recent_average(self.consumption_history@, ticks as nat),
    {
        average_of_newest(&self.consumption_history, ticks)
    }
}

/// Whether every amount is small.
fn all_small_in(q: &VecDeque<Dec>) -> (r: bool)
    ensures
        r == all_small(q@),
{
    proof {
        lemma_unit();
    }
    let bound = Dec { mantissa: 1000000000, scale: 0 };
    let mut k: usize = 0;
    while k < q.len()
        invariant
            k <= q@.len(),
            bound.wf(),
            bound.v() == 1000000000 * unit(),
            forall|j: int| 0 <= j < k ==> small(#[trigger] q@[j]),
        decreases q@.len() - k,
    {
        let d = q[k];
        if !d.is_wf() || !d.abs().le(&bound) {
            proof {
                assert(q@[k as int] == d);
            }
            return false;
        }
        k = k + 1;
    }
    true
}

/// The average of the newest `ticks` amounts of at most [`HISTORY_LEN`].
fn average_of_newest(q: &VecDeque<Dec>, ticks: usize) -> (r: Dec)
    requires
        q@.len() <= HISTORY_LEN,
        all_small(q@),
    ensures
        r == recent_average(q@, ticks as nat),
{
    let n = q.len();
    let count = if n < ticks {
        n
    } else {
        ticks
    };
    if count == 0 {
        return Dec::zero();
    }
    let mut sum = Dec::zero();
    let mut k: usize = 0;
    while k < count
        invariant
            n == q@.len(),
            n <= HISTORY_LEN,
            count <= n,
            k <= count,
            all_small(q@),
            sum == newest_sum(q@, k as nat),
            sum.wf(),
            abs_int(sum.v()) <= k * (1000000000 * unit() + unit()),
        decreases count - k,
    {
        let x = q[n - 1 - k];
        proof {
            lemma_unit();
            assert(small(q@[n - 1 - k]));
            assert(q@[n - 1 - k] == q@[q@.len() - (k + 1)]);
            assert(abs_int(sum.v() + x.v()) <= (1000000000 * unit() + unit()) * 51) by (nonlinear_arith)
                requires
                    abs_int(sum.v()) <= k * (1000000000 * unit() + unit()),
                    k < 50,
                    abs_int(x.v()) <= 1000000000 * unit(),
                    unit() > 0,
            ;
        }
        let s = dec_add(sum, x);
        proof {
            lemma_rounded_size(sum.v() + x.v(), s);
            assert(abs_int(s.v()) <= (k + 1) * (1000000000 * unit() + unit())) by (nonlinear_arith)
                requires
                    abs_int(s.v()) <= abs_int(sum.v() + x.v()) + unit(),
                    abs_int(sum.v()) <= k * (1000000000 * unit() + unit()),
                    abs_int(x.v()) <= 1000000000 * unit(),
            ;
        }
        sum = s;
        k = k + 1;
    }
    let c = Dec::from_usize(count);
    proof {
        lemma_unit();
        assert(abs_int(sum.v()) <= (MAX_MANTISSA - 1) * abs_int(c.v())) by (nonlinear_arith)
            requires
                abs_int(sum.v()) <= count * (1000000000 * unit() + unit()),
                count <= 50,
                c.v() == count * unit(),
                count >= 1,
                unit() > 0,
                MAX_MANTISSA == 79228162514264337593543950335,
        ;
    }
    dec_div(sum, c)
}

/// How many deaths a village panel keeps.
pub const DEATHS_KEPT: usize = 5;

/// How many lines of recent events the viewer keeps.
pub const RECENT_KEPT: usize = 10;

/// A village as the viewer shows it, rebuilt from its events.
#[derive(Debug)]
pub struct VillagePanel {
    pub id: String,
    pub population: usize,
    pub food: Dec,
    pub wood: Dec,
    pub money: Dec,
    pub houses: usize,
    pub food_workers: usize,
    pub wood_workers: usize,
    pub construction_workers: usize,
    pub idle_workers: usize,
    /// The tick and cause of the last deaths, oldest first, at most
    /// [`DEATHS_KEPT`].
    pub recent_deaths: Vec<(usize, DeathCause)>,
    /// The tick of the last birth.
    pub last_birth: Option<usize>,
    pub food_history: ResourceHistory,
    pub wood_history: ResourceHistory,
    /// The quantity, negative for a sale, and price of the last food trade.
    pub last_food_trade: Option<(Dec, Dec)>,
    /// The quantity, negative for a sale, and price of the last wood trade.
    pub last_wood_trade: Option<(Dec, Dec)>,
}

/// What a village panel shows.
pub struct PanelView {
    pub id: Seq<char>,
    pub population: usize,
    pub food: Dec,
    pub wood: Dec,
    pub money: Dec,
    pub houses: usize,
    pub food_workers: usize,
    pub wood_workers: usize,
    pub construction_workers: usize,
    pub idle_workers: usize,
    pub recent_deaths: Seq<(usize, DeathCause)>,
    pub last_birth: Option<usize>,
    pub food_history: HistoryView,
    pub wood_history: HistoryView,
    pub last_food_trade: Option<(Dec, Dec)>,
    pub last_wood_trade: Option<(Dec, Dec)>,
}

impl View for VillagePanel {
    type V = PanelView;

    open spec fn view(&self) -> PanelView {
        PanelView {
            id: self.id@,
            population: self.population,
            food: self.food,
            wood: self.wood,
            money: self.money,
            houses: self.houses,
            food_workers: self.food_workers,
            wood_workers: self.wood_workers,
            construction_workers: self.construction_workers,
            idle_workers: self.idle_workers,
            recent_deaths: self.recent_deaths@,
            last_birth: self.last_birth,
            food_history: self.food_history@,
            wood_history: self.wood_history@,
            last_food_trade: self.last_food_trade,
            last_wood_trade: self.last_wood_trade,
        }
    }
}

/// A panel before any event: zeros, nothing recorded.
pub open spec fn fresh_panel(id: Seq<char>) -> PanelView {
    PanelView {
        id,
        population: 0,
        food: zero_dec(),
        wood: zero_dec(),
        money: zero_dec(),
        houses: 0,
        food_workers: 0,
        wood_workers: 0,
        construction_workers: 0,
        idle_workers: 0,
        recent_deaths: Seq::empty(),
        last_birth: None,
        food_history: empty_history(),
        wood_history: empty_history(),
        last_food_trade: None,
        last_wood_trade: None,
    }
}

/// `d` with its sign flipped.
pub open spec fn negated(d: Dec) -> Dec {
    Dec { mantissa: (-d.mantissa) as i128, scale: d.scale }
}

/// The panel after one more event of its village: a snapshot sets the
/// population, houses and stocks; an allocation sets the workers; production
/// and consumption are recorded in the resource's history; a birth sets the
/// last birth; a death is kept among the last [`DEATHS_KEPT`]; a trade becomes
/// the last trade of its resource, with the quantity negative for a sale.
pub open spec fn panel_step(p: PanelView, e: Event) -> PanelView {
    match e.event_type {
        EventType::VillageStateSnapshot { population, houses, food, wood, money } => PanelView {
            population,
            houses,
            food,
            wood,
            money,
            ..p
        },
        EventType::WorkerAllocation { food_workers, wood_workers, construction_workers, idle_workers, .. } =>
            PanelView { food_workers, wood_workers, construction_workers, idle_workers, ..p },
        EventType::ResourceProduced { resource, amount, .. } => if resource == ResourceType::Food {
            PanelView { food_history: produced_into(p.food_history, amount), ..p }
        } else {
            PanelView { wood_history: produced_into(p.wood_history, amount), ..p }
        },
        EventType::ResourceConsumed { resource, amount, .. } => if resource == ResourceType::Food {
            PanelView { food_history: consumed_into(p.food_history, amount), ..p }
        } else {
            PanelView { wood_history: consumed_into(p.wood_history, amount), ..p }
        },
        EventType::WorkerBorn { .. } => PanelView { last_birth: Some(e.tick), ..p },
        EventType::WorkerDied { cause, .. } => PanelView {
            recent_deaths: kept(p.recent_deaths.push((e.tick, cause)), DEATHS_KEPT as nat),
            ..p
        },
        EventType::TradeExecuted { resource, quantity, price, side, .. } => {
            let signed = if side == TradeSide::Buy {
                quantity
            } else {
                negated(quantity)
            };
            if resource == ResourceType::Food {
                PanelView { last_food_trade: Some((signed, price)), ..p }
            } else {
                PanelView { last_wood_trade: Some((signed, price)), ..p }
            }
        },
        _ => p,
    }
}

impl VillagePanel {
    /// A panel for the village before any of its events.
    pub fn new(id: &String) -> (r: Self)
        ensures
            r@ == fresh_panel(id@),
            r.wf(),
    {
        VillagePanel {
            id: String::from_str(id.as_str()),
            population: 0,
            food: Dec::zero(),
            wood: Dec::zero(),
            money: Dec::zero(),
            houses: 0,
            food_workers: 0,
            wood_workers: 0,
            construction_workers: 0,
            idle_workers: 0,
            recent_deaths: Vec::new(),
            last_birth: None,
            food_history: ResourceHistory::new(),
            wood_history: ResourceHistory::new(),
            last_food_trade: None,
            last_wood_trade: None,
        }
    }

    /// The histories keep at most [`HISTORY_LEN`] amounts.
    pub open spec fn wf(&self) -> bool {
        self.food_history.wf() && self.wood_history.wf()
    }

    /// Shows one more event of the village.
    pub fn apply(&mut self, e: &Event)
        requires
            old(self).wf(),
            decimals_ok(e.event_type),
        ensures
            final(self).wf(),
            final(self)@ == panel_step(old(self)@, *e),
    {
        match &e.event_type {
            EventType::VillageStateSnapshot { population, houses, food, wood, money } => {
                self.population = *population;
                self.houses = *houses;
                self.food = *food;
                self.wood = *wood;
                self.money = *money;
            },
            EventType::WorkerAllocation { food_workers, wood_workers, construction_workers, idle_workers, .. } => {
                self.food_workers = *food_workers;
                self.wood_workers = *wood_workers;
                self.construction_workers = *construction_workers;
                self.idle_workers = *idle_workers;
            },
            EventType::ResourceProduced { resource, amount, .. } => match resource {
                ResourceType::Food => self.food_history.record_production(*amount),
                ResourceType::Wood => self.wood_history.record_production(*amount),
            },
            EventType::ResourceConsumed { resource, amount, .. } => match resource {
                ResourceType::Food => self.food_history.record_consumption(*amount),
                ResourceType::Wood => self.wood_history.record_consumption(*amount),
            },
            EventType::WorkerBorn { .. } => {
                self.last_birth = Some(e.tick);
            },
            EventType::WorkerDied { cause, .. } => {
                self.recent_deaths.push((e.tick, *cause));
                if self.recent_deaths.len() > DEATHS_KEPT {
                    self.recent_deaths.remove(0);
                    proof {
                        assert(self.recent_deaths@ =~= old(self).recent_deaths@.push((e.tick, *cause)).drop_first());
                    }
                }
            },
            EventType::TradeExecuted { resource, quantity, price, side, .. } => {
                let signed = match side {
                    TradeSide::Buy => *quantity,
                    TradeSide::Sell => Dec { mantissa: -quantity.mantissa, scale: quantity.scale },
                };
                match resource {
                    ResourceType::Food => {
                        self.last_food_trade = Some((signed, *price));
                    },
                    ResourceType::Wood => {
                        self.last_wood_trade = Some((signed, *price));
                    },
                }
            },
            _ => {},
        }
    }
}

/// The viewer: the recorded events, the tick it shows, each village's panel
/// in the order in which the villages first appeared, and the last events as
/// text.
#[derive(Debug)]
pub struct UIState {
    pub events: Vec<Event>,
    pub current_tick: usize,
    pub villages: Vec<VillagePanel>,
    pub mode: UIMode,
    pub max_tick: usize,
    /// The last events shown, oldest first, at most [`RECENT_KEPT`].
    pub recent_events: Vec<String>,
    pub paused: bool,
}

/// What the viewer shows: its panels and its recent lines.
pub struct ScreenView {
    pub villages: Seq<PanelView>,
    pub recent: Seq<Seq<char>>,
}

/// Nothing shown yet.
pub open spec fn blank_screen() -> ScreenView {
    ScreenView { villages: Seq::empty(), recent: Seq::empty() }
}

/// The position of the first panel among the first `n` of the village.
pub open spec fn panel_index(vs: Seq<PanelView>, id: Seq<char>, n: nat) -> Option<int>
    decreases n,
{
    if n == 0 {
        None
    } else {
        match panel_index(vs, id, (n - 1) as nat) {
            Some(k) => Some(k),
            None => if vs[n - 1].id == id {
                Some(n - 1)
            } else {
                None
            },
        }
    }
}

/// The line that shows an event among the recent ones: its tick in brackets,
/// then the event as [`Event::describe`] writes it.
pub open spec fn event_line(e: Event) -> Seq<char> {
    "["@ + digits(e.tick as nat) + "] "@ + ("["@ + digits(e.tick as nat) + "] Village "@
        + e.village_id@ + ": "@ + event_text(e.event_type))
}

/// The screen after one more event: the village's panel, made on its first
/// event, shows the event, and the event's line joins the recent ones, the
/// oldest leaving when [`RECENT_KEPT`] are already there.
pub open spec fn screen_step(s: ScreenView, e: Event) -> ScreenView {
    let vs = s.villages;
    ScreenView {
        villages: match panel_index(vs, e.village_id@, vs.len()) {
            Some(k) => vs.update(k, panel_step(vs[k], e)),
            None => vs.push(panel_step(fresh_panel(e.village_id@), e)),
        },
        recent: if s.recent.len() >= RECENT_KEPT {
            s.recent.drop_first().push(event_line(e))
        } else {
            s.recent.push(event_line(e))
        },
    }
}

/// The screen after the events, in order.
pub open spec fn screen_after(s: ScreenView, es: Seq<Event>) -> ScreenView
    decreases es.len(),
{
    if es.len() == 0 {
        s
    } else {
        screen_step(screen_after(s, es.drop_last()), es.last())
    }
}

/// The events among the first `n` whose tick is from `lo` to `hi`, in order.
pub open spec fn ticks_between(events: Seq<Event>, lo: int, hi: int, n: nat) -> Seq<Event>
    decreases n,
{
    if n == 0 {
        Seq::empty()
    } else {
        let prev = ticks_between(events, lo, hi, (n - 1) as nat);
        let e = events[n - 1];
        if lo <= e.tick <= hi {
            prev.push(e)
        } else {
            prev
        }
    }
}

/// The recorded events whose tick is from `lo` to `hi`, in order.
pub open spec fn recorded_between(events: Seq<Event>, lo: int, hi: int) -> Seq<Event> {
    ticks_between(events, lo, hi, events.len())
}

/// Every recorded event can be written out.
pub open spec fn showable(events: Seq<Event>) -> bool {
    forall|i: int| 0 <= i < events.len() ==> decimals_ok(#[trigger] events[i].event_type)
}

/// What the panels show.
pub open spec fn panels_of(vs: Seq<VillagePanel>) -> Seq<PanelView> {
    vs.map_values(|v: VillagePanel| v@)
}

/// The text of the lines.
pub open spec fn lines_of(rs: Seq<String>) -> Seq<Seq<char>> {
    rs.map_values(|r: String| r@)
}

/// Whether every recorded event can be written out.
pub fn all_showable(events: &Vec<Event>) -> (r: bool)
    ensures
        r == showable(events@),
{
    let mut i: usize = 0;
    while i < events.len()
        invariant
            i <= events@.len(),
            forall|j: int| 0 <= j < i ==> decimals_ok(#[trigger] events@[j].event_type),
        decreases events@.len() - i,
    {
        let ok = match &events[i].event_type {
            EventType::ResourceProduced { amount, .. } => amount.is_wf(),
            EventType::ResourceConsumed { amount, .. } => amount.is_wf(),
            EventType::HouseDecayed { maintenance_level, .. } => maintenance_level.is_wf(),
            EventType::TradeExecuted { quantity, price, .. } => quantity.is_wf() && price.is_wf(),
            EventType::OrderPlaced { quantity, price, .. } => quantity.is_wf() && price.is_wf(),
            EventType::VillageStateSnapshot { food, wood, money, .. } => food.is_wf() && wood.is_wf()
                && money.is_wf(),
            _ => true,
        };
        if !ok {
            return false;
        }
        i = i + 1;
    }
    true
}

/// Where the village's panel stands, if it has one.
fn find_panel(villages: &Vec<VillagePanel>, id: &String) -> (r: Option<usize>)
    ensures
        match r {
            Some(k) => k < villages@.len() && panel_index(panels_of(villages@), id@, villages@.len())
                == Some(k as int),
            None => panel_index(panels_of(villages@), id@, villages@.len()) is None,
        },
{
    let ghost vs = panels_of(villages@);
    let mut k: usize = 0;
    while k < villages.len()
        invariant
            k <= villages@.len(),
            vs == panels_of(villages@),
            panel_index(vs, id@, k as nat) is None,
        decreases villages@.len() - k,
    {
        if villages[k].id == *id {
            proof {
                assert(vs[k as int].id == id@);
                lemma_panel_index_found(vs, id@, (k + 1) as nat, villages@.len() as nat);
            }
            return Some(k);
        }
        k = k + 1;
    }
    None
}

/// Once a panel is found among the first `n`, looking further finds it too.
proof fn lemma_panel_index_found(vs: Seq<PanelView>, id: Seq<char>, n: nat, m: nat)
    requires
        n <= m,
        panel_index(vs, id, n) is Some,
    ensures
        panel_index(vs, id, m) == panel_index(vs, id, n),
    decreases m - n,
{
    if n < m {
        lemma_panel_index_found(vs, id, n, (m - 1) as nat);
    }
}

/// Shows one event: on its village's panel, made if need be, and among the
/// recent lines.
fn show_event(villages: &mut Vec<VillagePanel>, recent: &mut Vec<String>, e: &Event)
    requires
        forall|k: int| 0 <= k < old(villages)@.len() ==> (#[trigger] old(villages)@[k]).wf(),
        decimals_ok(e.event_type),
    ensures
        forall|k: int| 0 <= k < final(villages)@.len() ==> (#[trigger] final(villages)@[k]).wf(),
        (ScreenView { villages: panels_of(final(villages)@), recent: lines_of(final(recent)@) })
            == screen_step(
            ScreenView { villages: panels_of(old(villages)@), recent: lines_of(old(recent)@) },
            *e,
        ),
{
    let ghost vs = panels_of(villages@);
    match find_panel(villages, &e.village_id) {
        Some(k) => {
            proof {
                assert(villages@[k as int].wf());
            }
            let mut p = villages.remove(k);
            p.apply(e);
            villages.insert(k, p);
            proof {
                assert(panels_of(villages@) =~= vs.update(k as int, panel_step(vs[k as int], *e)));
            }
        },
        None => {
            let mut p = VillagePanel::new(&e.village_id);
            p.apply(e);
            villages.push(p);
            proof {
                assert(panels_of(villages@) =~= vs.push(panel_step(fresh_panel(e.village_id@), *e)));
            }
        },
    }
    let ghost rs = lines_of(recent@);
    let line = String::from_str("[").concat(usize_text(e.tick).as_str()).concat("] ").concat(
        e.describe().as_str(),
    );
    if recent.len() >= RECENT_KEPT {
        recent.remove(0);
        recent.push(line);
        proof {
            assert(lines_of(recent@) =~= rs.drop_first().push(event_line(*e)));
        }
    } else {
        recent.push(line);
        proof {
            assert(lines_of(recent@) =~= rs.push(event_line(*e)));
        }
    }
}

impl UIState {
    /// What the viewer shows.
    pub open spec fn screen(&self) -> ScreenView {
        ScreenView { villages: panels_of(self.villages@), recent: lines_of(self.recent_events@) }
    }

    /// Every event can be written out and every panel keeps its bounds.
    pub open spec fn wf(&self) -> bool {
        &&& showable(self.events@)
        &&& forall|k: int| 0 <= k < self.villages@.len() ==> (#[trigger] self.villages@[k]).wf()
    }

    /// A viewer of the events, in replay mode, showing tick zero.
    pub fn new(events: Vec<Event>) -> (r: Self)
        requires
            showable(events@),
        ensures
            r.wf(),
            r.events@ == events@,
            r.current_tick == 0,
            r.max_tick == max_tick_at(events@, events@.len() as nat),
            r.mode == UIMode::Replay,
            !r.paused,
            r.screen() == screen_after(blank_screen(), recorded_between(events@, 0, 0)),
    {
        let mut max_tick: usize = 0;
        let mut i: usize = 0;
        while i < events.len()
            invariant
                i <= events@.len(),
                max_tick == max_tick_at(events@, i as nat),
            decreases events@.len() - i,
        {
            if events[i].tick > max_tick {
                max_tick = events[i].tick;
            }
            i = i + 1;
        }
        let mut ui = UIState {
            events,
            current_tick: 0,
            villages: Vec::new(),
            mode: UIMode::Replay,
            max_tick,
            recent_events: Vec::new(),
            paused: false,
        };
        proof {
            assert(panels_of(ui.villages@) =~= Seq::empty());
            assert(lines_of(ui.recent_events@) =~= Seq::empty());
        }
        ui.process_events_to_tick(0);
        ui
    }

    /// Shows, in order, the events whose tick is from `lo` to `hi`.
    fn show_between(&mut self, lo: usize, hi: usize)
        requires
            old(self).wf(),
        ensures
            final(self).wf(),
            final(self).events@ == old(self).events@,
            final(self).current_tick == old(self).current_tick,
            final(self).max_tick == old(self).max_tick,
            final(self).mode == old(self).mode,
            final(self).paused == old(self).paused,
            final(self).screen() == screen_after(
                old(self).screen(),
                recorded_between(old(self).events@, lo as int, hi as int),
            ),
    {
        let ghost s0 = self.screen();
        let mut i: usize = 0;
        while i < self.events.len()
            invariant
                i <= self.events@.len(),
                self.events@ == old(self).events@,
                self.current_tick == old(self).current_tick,
                self.max_tick == old(self).max_tick,
                self.mode == old(self).mode,
                self.paused == old(self).paused,
                self.wf(),
                self.screen() == screen_after(s0, ticks_between(self.events@, lo as int, hi as int, i as nat)),
            decreases self.events@.len() - i,
        {
            let ghost before = ticks_between(self.events@, lo as int, hi as int, i as nat);
            let tick = self.events[i].tick;
            if lo <= tick && tick <= hi {
                proof {
                    assert(decimals_ok(self.events@[i as int].event_type));
                }
                show_event(&mut self.villages, &mut self.recent_events, &self.events[i]);
                proof {
                    assert(before.push(self.events@[i as int]).drop_last() =~= before);
                }
            }
            i = i + 1;
        }
    }

    /// Shows the events from the current tick up to `target_tick`, and moves
    /// to that tick.
    pub fn process_events_to_tick(&mut self, target_tick: usize)
        requires
            old(self).wf(),
        ensures
            final(self).wf(),
            final(self).events@ == old(self).events@,
            final(self).current_tick == target_tick,
            final(self).max_tick == old(self).max_tick,
            final(self).mode == old(self).mode,
            final(self).paused == old(self).paused,
            final(self).screen() == screen_after(
                old(self).screen(),
                recorded_between(old(self).events@, old(self).current_tick as int, target_tick as int),
            ),
    {
        let lo = self.current_tick;
        self.show_between(lo, target_tick);
        self.current_tick = target_tick;
    }

    /// Moves one tick on, up to the last, showing that tick's events.
    pub fn step_forward(&mut self)
        requires
            old(self).wf(),
        ensures
            final(self).wf(),
            final(self).events@ == old(self).events@,
            final(self).max_tick == old(self).max_tick,
            final(self).mode == old(self).mode,
            final(self).paused == old(self).paused,
            old(self).current_tick < old(self).max_tick ==> {
                &&& final(self).current_tick == old(self).current_tick + 1
                &&& final(self).screen() == screen_after(
                    old(self).screen(),
                    recorded_between(
                        old(self).events@,
                        old(self).current_tick + 1,
                        old(self).current_tick + 1,
                    ),
                )
            },
            old(self).current_tick >= old(self).max_tick ==> {
                &&& final(self).current_tick == old(self).current_tick
                &&& final(self).screen() == old(self).screen()
            },
    {
        if self.current_tick < self.max_tick {
            let next = self.current_tick + 1;
            self.show_between(next, next);
            self.current_tick = next;
        }
    }

    /// Clears the screen and shows the events from tick zero to `tick`.
    fn replay_to(&mut self, tick: usize)
        requires
            old(self).wf(),
        ensures
            final(self).wf(),
            final(self).events@ == old(self).events@,
            final(self).current_tick == tick,
            final(self).max_tick == old(self).max_tick,
            final(self).mode == old(self).mode,
            final(self).paused == old(self).paused,
            final(self).screen() == screen_after(blank_screen(), recorded_between(old(self).events@, 0, tick as int)),
    {
        self.villages.clear();
        self.recent_events.clear();
        self.current_tick = 0;
        proof {
            assert(panels_of(self.villages@) =~= Seq::empty());
            assert(lines_of(self.recent_events@) =~= Seq::empty());
        }
        self.process_events_to_tick(tick);
    }

    /// Moves one tick back by showing again, from a clear screen, the events
    /// up to the tick before.
    pub fn step_backward(&mut self)
        requires
            old(self).wf(),
        ensures
            final(self).wf(),
            final(self).events@ == old(self).events@,
            final(self).max_tick == old(self).max_tick,
            final(self).mode == old(self).mode,
            final(self).paused == old(self).paused,
            old(self).current_tick > 0 ==> {
                &&& final(self).current_tick == old(self).current_tick - 1
                &&& final(self).screen() == screen_after(
                    blank_screen(),
                    recorded_between(old(self).events@, 0, old(self).current_tick - 1),
                )
            },
            old(self).current_tick == 0 ==> {
                &&& final(self).current_tick == 0
                &&& final(self).screen() == old(self).screen()
            },
    {
        if self.current_tick > 0 {
            let target = self.current_tick - 1;
            self.replay_to(target);
        }
    }

    /// Shows the events from tick zero to `tick`, on a clear screen, when
    /// `tick` is no later than the last; does nothing otherwise.
    pub fn jump_to_tick(&mut self, tick: usize)
        requires
            old(self).wf(),
        ensures
            final(self).wf(),
            final(self).events@ == old(self).events@,
            final(self).max_tick == old(self).max_tick,
            final(self).mode == old(self).mode,
            final(self).paused == old(self).paused,
            tick <= old(self).max_tick ==> {
                &&& final(self).current_tick == tick
                &&& final(self).screen() == screen_after(
                    blank_screen(),
                    recorded_between(old(self).events@, 0, tick as int),
                )
            },
            tick > old(self).max_tick ==> {
                &&& final(self).current_tick == old(self).current_tick
                &&& final(self).screen() == old(self).screen()
            },
    {
        if tick <= self.max_tick {
            self.replay_to(tick);
        }
    }
}

} // verus!
