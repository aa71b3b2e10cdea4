//! Collects villages' budgets and orders into the auction's input.
use crate::auction::{Order, OrderId, OrderType, Participant, ParticipantId, ResourceId};
use crate::decimal::Dec;
use crate::types::{participant_number, resource_name, OrderRequest, ResourceTypeExt, VillageId};
use vstd::prelude::*;

verus! {

/// The participants after registering `p`: an earlier entry with its id is
/// replaced in place, as a map keyed by id replaces it; else `p` is added.
pub open spec fn register(ps: Seq<Participant>, p: Participant) -> Seq<Participant> {
    if exists|k: int| 0 <= k < ps.len() && (#[trigger] ps[k]).id == p.id {
        ps.update(choose|k: int| 0 <= k < ps.len() && (#[trigger] ps[k]).id == p.id, p)
    } else {
        ps.push(p)
    }
}

/// No two participants share an id.
pub open spec fn ids_distinct(ps: Seq<Participant>) -> bool {
    forall|a: int, b: int| 0 <= a < b < ps.len() ==> (#[trigger] ps[a]).id != (#[trigger] ps[b]).id
}

/// The orders are numbered and stamped in the order they were added: the
/// order at position `i` has id `i` and stamp `i`.
pub open spec fn numbered(orders: Seq<Order>) -> bool {
    forall|i: int| 0 <= i < orders.len() ==> (#[trigger] orders[i]).id == OrderId(i as usize) && orders[i].timestamp == i
}

/// Builds the auction's orders and participants, numbering orders and
/// stamping them in the order they are added.
pub struct AuctionBuilder {
    orders: Vec<Order>,
    participants: Vec<Participant>,
    order_counter: usize,
    timestamp_counter: u64,
}

impl AuctionBuilder {
    /// The orders added so far.
    pub closed spec fn orders_spec(&self) -> Seq<Order> {
        self.orders@
    }

    /// The participants registered so far, each id once.
    pub closed spec fn participants_spec(&self) -> Seq<Participant> {
        self.participants@
    }

    /// The number and the stamp the next order gets.
    pub closed spec fn next_order(&self) -> usize {
        self.order_counter
    }

    pub closed spec fn next_stamp(&self) -> u64 {
        self.timestamp_counter
    }

    pub closed spec fn wf(&self) -> bool {
        &&& ids_distinct(self.participants@)
        &&& numbered(self.orders@)
        &&& self.order_counter == self.orders@.len()
        &&& self.timestamp_counter == self.orders@.len()
    }

    pub fn new() -> (r: Self)
        ensures
            r.wf(),
            r.orders_spec() == Seq::<Order>::empty(),
            r.participants_spec() == Seq::<Participant>::empty(),
            r.next_order() == 0,
            r.next_stamp() == 0,
    {
        AuctionBuilder { orders: Vec::new(), participants: Vec::new(), order_counter: 0, timestamp_counter: 0 }
    }

    /// Registers a village with its budget; registering it again replaces the
    /// budget.
    pub fn add_village(&mut self, village_id: &VillageId, budget: Dec)
        requires
            old(self).wf(),
        ensures
            final(self).wf(),
            final(self).participants_spec() == register(
                old(self).participants_spec(),
                Participant { id: ParticipantId(participant_number(village_id.0@)), currency: budget },
            ),
            final(self).orders_spec() == old(self).orders_spec(),
            final(self).next_order() == old(self).next_order(),
            final(self).next_stamp() == old(self).next_stamp(),
    {
        let participant_id = ParticipantId(village_id.to_participant_id());
        let entry = Participant { id: participant_id, currency: budget };
        let ghost before = self.participants@;
        let ghost s0 = *self;
        let mut k: usize = 0;
        while k < self.participants.len()
            invariant
                k <= self.participants@.len(),
                self.participants@ == before,
                *self == s0,
                s0 == *old(self),
                s0.wf(),
                before == s0.participants@,
                ids_distinct(before),
                entry.id == participant_id,
                entry == (Participant {
                    id: ParticipantId(participant_number(village_id.0@)),
                    currency: budget,
                }),
                forall|i: int| 0 <= i < k ==> (#[trigger] before[i]).id != participant_id,
            decreases self.participants@.len() - k,
        {
            if self.participants[k].id.0 == participant_id.0 {
                self.participants.set(k, entry);
                proof {
                    assert(before[k as int].id == entry.id);
                    let c = choose|i: int| 0 <= i < before.len() && (#[trigger] before[i]).id == entry.id;
                    if c < k {
                        assert(before[c].id == before[k as int].id);
                    }
                    if c > k {
                        assert(before[k as int].id == before[c].id);
                    }
                    assert(c == k);
                    assert(self.participants@ == before.update(c, entry));
                    assert(self.participants@ == register(before, entry));
                    assert(self.orders@ == s0.orders@);
                    assert(self.order_counter == s0.order_counter);
                    assert(self.timestamp_counter == s0.timestamp_counter);
                    assert(ids_distinct(self.participants@)) by {
                        assert forall|a: int, b: int|
                            0 <= a < b < self.participants@.len() implies (
                            #[trigger] self.participants@[a]).id != (
                            #[trigger] self.participants@[b]).id by {
                            if a != k && b != k {
                                assert(self.participants@[a] == before[a]);
                                assert(self.participants@[b] == before[b]);
                            } else if a == k {
                                assert(self.participants@[b] == before[b]);
                                assert(before[a].id != before[b].id);
                            } else {
                                assert(self.participants@[a] == before[a]);
                                assert(before[a].id != before[b].id);
                            }
                        }
                    }
                }
                return;
            }
            k = k + 1;
        }
        self.participants.push(entry);
        proof {
            if exists|i: int| 0 <= i < before.len() && (#[trigger] before[i]).id == entry.id {
                let c = choose|i: int| 0 <= i < before.len() && (#[trigger] before[i]).id == entry.id;
                assert(before[c].id != participant_id);
            }
        }
    }

    /// Adds a village's order: a bid when it buys, else an ask, for the
    /// requested quantity at the requested price, with the next number and
    /// stamp.
    pub fn add_order(&mut self, village_id: &VillageId, request: OrderRequest)
        requires
            old(self).next_order() < usize::MAX,
            old(self).next_stamp() < u64::MAX,
        ensures
            old(self).wf() ==> final(self).wf(),
            final(self).participants_spec() == old(self).participants_spec(),
            final(self).next_order() == old(self).next_order() + 1,
            final(self).next_stamp() == old(self).next_stamp() + 1,
            final(self).orders_spec().len() == old(self).orders_spec().len() + 1,
            final(self).orders_spec().drop_last() == old(self).orders_spec(),
            ({
                let o = final(self).orders_spec().last();
                &&& o.id == OrderId(old(self).next_order())
                &&& o.participant_id == ParticipantId(participant_number(village_id.0@))
                &&& o.resource_id.0@ == resource_name(request.resource)
                &&& o.order_type == (if request.is_buy {
                    OrderType::Bid
                } else {
                    OrderType::Ask
                })
                &&& o.original_quantity == request.quantity
                &&& o.effective_quantity == request.quantity
                &&& o.limit_price == request.price
                &&& o.timestamp == old(self).next_stamp()
            }),
            numbered(old(self).orders_spec()) && old(self).next_order() == old(self).orders_spec().len()
                && old(self).next_stamp() == old(self).orders_spec().len() ==> numbered(final(self).orders_spec())
                && final(self).next_order() == final(self).orders_spec().len() && final(self).next_stamp()
                == final(self).orders_spec().len(),
    {
        let name = String::from_str(request.resource.as_str());
        let order = Order {
            id: OrderId(self.order_counter),
            participant_id: ParticipantId(village_id.to_participant_id()),
            resource_id: ResourceId(name),
            order_type: if request.is_buy {
                OrderType::Bid
            } else {
                OrderType::Ask
            },
            original_quantity: request.quantity as u64,
            effective_quantity: request.quantity as u64,
            limit_price: request.price,
            timestamp: self.timestamp_counter,
        };
        self.orders.push(order);
        self.order_counter = self.order_counter + 1;
        self.timestamp_counter = self.timestamp_counter + 1;
        proof {
            assert(self.orders@.drop_last() =~= old(self).orders@);
            if numbered(old(self).orders@) && old(self).order_counter == old(self).orders@.len()
                && old(self).timestamp_counter == old(self).orders@.len() {
                assert forall|i: int| 0 <= i < self.orders@.len() implies (#[trigger] self.orders@[i]).id
                    == OrderId(i as usize) && self.orders@[i].timestamp == i by {
                    if i < old(self).orders@.len() {
                        assert(self.orders@[i] == old(self).orders@[i]);
                    }
                }
            }
        }
    }

    /// The orders and the participants.
    pub fn build(self) -> (r: (Vec<Order>, Vec<Participant>))
        ensures
            r.0@ == self.orders_spec(),
            r.1@ == self.participants_spec(),
            self.wf() ==> ids_distinct(r.1@),
            self.wf() ==> numbered(r.0@),
    {
        (self.orders, self.participants)
    }
}

impl Default for AuctionBuilder {
    fn default() -> (r: Self)
        ensures
            r.wf(),
            r.orders_spec() == Seq::<Order>::empty(),
            r.participants_spec() == Seq::<Participant>::empty(),
            r.next_order() == 0,
            r.next_stamp() == 0,
    {
        AuctionBuilder::new()
    }
}

} // verus!
