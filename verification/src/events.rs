//! What happens in a village, tick by tick, and the log that records it.
use crate::decimal::{dec_text, decimal_text, Dec};
use crate::text::{digits, usize_text};
use vstd::prelude::*;

verus! {

/// A resource that villages produce, consume and trade.
#[derive(Clone, Copy, Debug, PartialEq, Eq, Structural)]
pub enum ResourceType {
    Food,
    Wood,
}

/// What a resource was consumed for.
#[derive(Clone, Copy, Debug, PartialEq, Eq, Structural)]
pub enum ConsumptionPurpose {
    WorkerFeeding,
    HouseConstruction,
    HouseMaintenance,
}

/// Why a worker died.
#[derive(Clone, Copy, Debug, PartialEq, Eq, Structural)]
pub enum DeathCause {
    Starvation,
    NoShelter,
}

/// The side of a trade or an order.
#[derive(Clone, Copy, Debug, PartialEq, Eq, Structural)]
pub enum TradeSide {
    Buy,
    Sell,
}

/// What an event records.
#[derive(Clone, Debug)]
pub enum EventType {
    ResourceProduced { resource: ResourceType, amount: Dec, workers_assigned: usize },
    ResourceConsumed { resource: ResourceType, amount: Dec, purpose: ConsumptionPurpose },
    WorkerBorn { worker_id: usize, total_population: usize },
    WorkerDied { worker_id: usize, cause: DeathCause, total_population: usize },
    HouseCompleted { house_id: usize, total_houses: usize },
    HouseDecayed { house_id: usize, maintenance_level: Dec },
    TradeExecuted {
        resource: ResourceType,
        quantity: Dec,
        price: Dec,
        counterparty: String,
        side: TradeSide,
    },
    OrderPlaced {
        resource: ResourceType,
        quantity: Dec,
        price: Dec,
        side: TradeSide,
        order_id: String,
    },
    WorkerAllocation {
        food_workers: usize,
        wood_workers: usize,
        construction_workers: usize,
        repair_workers: usize,
        idle_workers: usize,
    },
    VillageStateSnapshot { population: usize, houses: usize, food: Dec, wood: Dec, money: Dec },
}

/// One logged event. `timestamp` is the wall-clock time at which it was
/// logged, in microseconds since the Unix epoch.
#[derive(Clone, Debug)]
pub struct Event {
    pub timestamp: i64,
    pub tick: usize,
    pub village_id: String,
    pub event_type: EventType,
}

/// What an event says, leaving out when it was logged.
pub struct Record {
    pub tick: usize,
    pub village_id: String,
    pub event_type: EventType,
}

pub open spec fn record(e: Event) -> Record {
    Record { tick: e.tick, village_id: e.village_id, event_type: e.event_type }
}

pub open spec fn rec(tick: usize, village_id: String, event_type: EventType) -> Record {
    Record { tick, village_id, event_type }
}

/// `after` is `before` with events saying `recs`, in order, logged at its end.
pub open spec fn appended(before: Seq<Event>, after: Seq<Event>, recs: Seq<Record>) -> bool {
    &&& after.len() == before.len() + recs.len()
    &&& forall|i: int| 0 <= i < before.len() ==> #[trigger] after[i] == before[i]
    &&& forall|i: int| 0 <= i < recs.len() ==> record(#[trigger] after[before.len() + i]) == recs[i]
}

pub proof fn lemma_appended_none(s: Seq<Event>)
    ensures
        appended(s, s, Seq::empty()),
{
}

pub proof fn lemma_appended_trans(
    a: Seq<Event>,
    b: Seq<Event>,
    c: Seq<Event>,
    r1: Seq<Record>,
    r2: Seq<Record>,
)
    requires
        appended(a, b, r1),
        appended(b, c, r2),
    ensures
        appended(a, c, r1 + r2),
{
    assert forall|i: int| 0 <= i < (r1 + r2).len() implies record(
        #[trigger] c[a.len() + i],
    ) == (r1 + r2)[i] by {
        if i < r1.len() {
            assert(c[a.len() + i] == b[a.len() + i]);
        } else {
            assert(c[a.len() + i] == c[b.len() + (i - r1.len())]);
        }
    }
}

/// The wall-clock time, from `chrono::Utc::now`, as microseconds since the
/// Unix epoch (`DateTime::timestamp_micros`). Nothing is claimed of its value.
#[verifier::external_body]
fn now_micros() -> i64 {
    chrono::Utc::now().timestamp_micros()
}

/// An append-only log of events.
pub struct EventLogger {
    events: Vec<Event>,
}

impl View for EventLogger {
    type V = Seq<Event>;

    closed spec fn view(&self) -> Seq<Event> {
        self.events@
    }
}

impl EventLogger {
    /// An empty log.
    pub fn new() -> (r: Self)
        ensures
            r@ == Seq::<Event>::empty(),
    {
        EventLogger { events: Vec::new() }
    }

    /// Appends an event, stamped with the current time.
    pub fn log(&mut self, tick: usize, village_id: String, event_type: EventType)
        ensures
            appended(old(self)@, final(self)@, seq![rec(tick, village_id, event_type)]),
    {
        let timestamp = now_micros();
        self.events.push(Event { timestamp, tick, village_id, event_type });
    }

    /// The events, oldest first.
    pub fn get_events(&self) -> (r: &[Event])
        ensures
            r@ == self@,
    {
        self.events.as_slice()
    }

    /// Drops every event.
    pub fn clear(&mut self)
        ensures
            final(self)@ == Seq::<Event>::empty(),
    {
        self.events.clear();
    }

    /// A log holding the given events, as read back from storage.
    pub fn from_events(events: Vec<Event>) -> (r: Self)
        ensures
            r@ == events@,
    {
        EventLogger { events }
    }
}

/// The name of a resource, as events print it.
pub open spec fn resource_word(r: ResourceType) -> Seq<char> {
    match r {
        ResourceType::Food => "Food"@,
        ResourceType::Wood => "Wood"@,
    }
}

pub open spec fn purpose_word(p: ConsumptionPurpose) -> Seq<char> {
    match p {
        ConsumptionPurpose::WorkerFeeding => "WorkerFeeding"@,
        ConsumptionPurpose::HouseConstruction => "HouseConstruction"@,
        ConsumptionPurpose::HouseMaintenance => "HouseMaintenance"@,
    }
}

pub open spec fn cause_word(c: DeathCause) -> Seq<char> {
    match c {
        DeathCause::Starvation => "Starvation"@,
        DeathCause::NoShelter => "NoShelter"@,
    }
}

pub open spec fn side_word(s: TradeSide) -> Seq<char> {
    match s {
        TradeSide::Buy => "Buy"@,
        TradeSide::Sell => "Sell"@,
    }
}

/// Every decimal in the event can be written out.
pub open spec fn decimals_ok(t: EventType) -> bool {
    match t {
        EventType::ResourceProduced { amount, .. } => amount.wf(),
        EventType::ResourceConsumed { amount, .. } => amount.wf(),
        EventType::HouseDecayed { maintenance_level, .. } => maintenance_level.wf(),
        EventType::TradeExecuted { quantity, price, .. } => quantity.wf() && price.wf(),
        EventType::OrderPlaced { quantity, price, .. } => quantity.wf() && price.wf(),
        EventType::VillageStateSnapshot { food, wood, money, .. } => food.wf() && wood.wf()
            && money.wf(),
        _ => true,
    }
}

/// What an event says, after its tick and village.
pub open spec fn event_text(t: EventType) -> Seq<char> {
    match t {
        EventType::ResourceProduced { resource, amount, workers_assigned } => "Produced "@
            + decimal_text(amount) + " "@ + resource_word(resource) + " with "@ + digits(
            workers_assigned as nat,
        ) + " workers"@,
        EventType::ResourceConsumed { resource, amount, purpose } => "Consumed "@ + decimal_text(
            amount,
        ) + " "@ + resource_word(resource) + " for "@ + purpose_word(purpose),
        EventType::WorkerBorn { worker_id, total_population } => "Worker "@ + digits(
            worker_id as nat,
        ) + " born (population: "@ + digits(total_population as nat) + ")"@,
        EventType::WorkerDied { worker_id, cause, total_population } => "Worker "@ + digits(
            worker_id as nat,
        ) + " died of "@ + cause_word(cause) + " (population: "@ + digits(total_population as nat)
            + ")"@,
        EventType::HouseCompleted { house_id, total_houses } => "House "@ + digits(house_id as nat)
            + " completed (total: "@ + digits(total_houses as nat) + ")"@,
        EventType::HouseDecayed { house_id, maintenance_level } => "House "@ + digits(
            house_id as nat,
        ) + " decayed to "@ + decimal_text(maintenance_level) + " maintenance"@,
        EventType::TradeExecuted { resource, quantity, price, counterparty, side } => side_word(side)
            + " "@ + decimal_text(quantity) + " "@ + resource_word(resource) + " at "@
            + decimal_text(price) + " with "@ + counterparty@,
        EventType::OrderPlaced { resource, quantity, price, side, .. } => "Placed "@ + side_word(
            side,
        ) + " order for "@ + decimal_text(quantity) + " "@ + resource_word(resource) + " at "@
            + decimal_text(price),
        EventType::WorkerAllocation {
            food_workers,
            wood_workers,
            construction_workers,
            repair_workers,
            idle_workers,
        } => "Allocated workers - F:"@ + digits(food_workers as nat) + " W:"@ + digits(
            wood_workers as nat,
        ) + " C:"@ + digits(construction_workers as nat) + " R:"@ + digits(repair_workers as nat)
            + " I:"@ + digits(idle_workers as nat),
        EventType::VillageStateSnapshot { population, houses, food, wood, money } => "State - Pop:"@
            + digits(population as nat) + " Houses:"@ + digits(houses as nat) + " Food:"@
            + decimal_text(food) + " Wood:"@ + decimal_text(wood) + " Money:"@ + decimal_text(money),
    }
}

fn resource_str(r: ResourceType) -> (s: &'static str)
    ensures
        s@ == resource_word(r),
{
    match r {
        ResourceType::Food => "Food",
        ResourceType::Wood => "Wood",
    }
}

fn purpose_str(p: ConsumptionPurpose) -> (s: &'static str)
    ensures
        s@ == purpose_word(p),
{
    match p {
        ConsumptionPurpose::WorkerFeeding => "WorkerFeeding",
        ConsumptionPurpose::HouseConstruction => "HouseConstruction",
        ConsumptionPurpose::HouseMaintenance => "HouseMaintenance",
    }
}

fn cause_str(c: DeathCause) -> (s: &'static str)
    ensures
        s@ == cause_word(c),
{
    match c {
        DeathCause::Starvation => "Starvation",
        DeathCause::NoShelter => "NoShelter",
    }
}

fn side_str(s: TradeSide) -> (r: &'static str)
    ensures
        r@ == side_word(s),
{
    match s {
        TradeSide::Buy => "Buy",
        TradeSide::Sell => "Sell",
    }
}

impl Event {
    /// The event as a line of text: `[tick] Village id: ` and what happened.
    pub fn describe(&self) -> (r: String)
        requires
            decimals_ok(self.event_type),
        ensures
            r@ == "["@ + digits(self.tick as nat) + "] Village "@ + self.village_id@ + ": "@
                + event_text(self.event_type),
    {
        let head = String::from_str("[").concat(usize_text(self.tick).as_str()).concat(
            "] Village ",
        ).concat(self.village_id.as_str()).concat(": ");
        let body = match &self.event_type {
            EventType::ResourceProduced { resource, amount, workers_assigned } => String::from_str(
                "Produced ",
            ).concat(dec_text(amount).as_str()).concat(" ").concat(resource_str(*resource)).concat(
                " with ",
            ).concat(usize_text(*workers_assigned).as_str()).concat(" workers"),
            EventType::ResourceConsumed { resource, amount, purpose } => String::from_str(
                "Consumed ",
            ).concat(dec_text(amount).as_str()).concat(" ").concat(resource_str(*resource)).concat(
                " for ",
            ).concat(purpose_str(*purpose)),
            EventType::WorkerBorn { worker_id, total_population } => String::from_str("Worker ").concat(
                usize_text(*worker_id).as_str(),
            ).concat(" born (population: ").concat(usize_text(*total_population).as_str()).concat(
                ")",
            ),
            EventType::WorkerDied { worker_id, cause, total_population } => String::from_str(
                "Worker ",
            ).concat(usize_text(*worker_id).as_str()).concat(" died of ").concat(cause_str(*cause)).concat(
                " (population: ",
            ).concat(usize_text(*total_population).as_str()).concat(")"),
            EventType::HouseCompleted { house_id, total_houses } => String::from_str("House ").concat(
                usize_text(*house_id).as_str(),
            ).concat(" completed (total: ").concat(usize_text(*total_houses).as_str()).concat(")"),
            EventType::HouseDecayed { house_id, maintenance_level } => String::from_str("House ").concat(
                usize_text(*house_id).as_str(),
            ).concat(" decayed to ").concat(dec_text(maintenance_level).as_str()).concat(
                " maintenance",
            ),
            EventType::TradeExecuted { resource, quantity, price, counterparty, side } => String::from_str(
                side_str(*side),
            ).concat(" ").concat(dec_text(quantity).as_str()).concat(" ").concat(
                resource_str(*resource),
            ).concat(" at ").concat(dec_text(price).as_str()).concat(" with ").concat(
                counterparty.as_str(),
            ),
            EventType::OrderPlaced { resource, quantity, price, side, .. } => String::from_str(
                "Placed ",
            ).concat(side_str(*side)).concat(" order for ").concat(dec_text(quantity).as_str()).concat(
                " ",
            ).concat(resource_str(*resource)).concat(" at ").concat(dec_text(price).as_str()),
            EventType::WorkerAllocation {
                food_workers,
                wood_workers,
                construction_workers,
                repair_workers,
                idle_workers,
            } => String::from_str("Allocated workers - F:").concat(usize_text(*food_workers).as_str()).concat(
                " W:",
            ).concat(usize_text(*wood_workers).as_str()).concat(" C:").concat(
                usize_text(*construction_workers).as_str(),
            ).concat(" R:").concat(usize_text(*repair_workers).as_str()).concat(" I:").concat(
                usize_text(*idle_workers).as_str(),
            ),
            EventType::VillageStateSnapshot { population, houses, food, wood, money } => String::from_str(
                "State - Pop:",
            ).concat(usize_text(*population).as_str()).concat(" Houses:").concat(
                usize_text(*houses).as_str(),
            ).concat(" Food:").concat(dec_text(food).as_str()).concat(" Wood:").concat(
                dec_text(wood).as_str(),
            ).concat(" Money:").concat(dec_text(money).as_str()),
        };
        head.concat(body.as_str())
    }
}

} // verus!
