//! A day of the whole simulation: every village lives its day and places its
//! orders, the market clears, and the trades are settled.
use crate::auction::{
    auction_ready_check, cleared_by, covered, exactly, known, ready_checked, run_auction, settles,
    AuctionSuccess, Order, OrderId, OrderType, Participant, ParticipantId, ResourceClearing, ResourceId,
};
use crate::auction_builder::{register, AuctionBuilder};
use crate::decimal::Dec;
use crate::events::{appended, Event, EventLogger, EventType, TradeSide};
use crate::laws::law_settlement_touches_owners;
use crate::simulation::{
    apply_trades, day_ready, day_ready_check, day_result, find_id, id_for, settle_state,
    settlement_check, settlement_checked, update_village,
};
use crate::text::{digits, usize_text};
use crate::types::{participant_number, resource_name, OrderRequest, ResourceTypeExt, VillageId};
use crate::village::{Allocation, Village};
use vstd::prelude::*;

verus! {

/// How a day ended.
#[derive(Debug)]
pub enum DayOutcome {
    /// Every village lived its day. `traded` tells whether the market's trades
    /// were settled, `all_dead` whether no village has a worker left.
    Done { traded: bool, all_dead: bool },
    /// The village at this position could not start its day: its allocation
    /// does not add up to its worker-days, or its numbers are beyond the
    /// simulation's range.
    VillageOutOfRange(usize),
    /// The village at this position has no identifier in the list.
    UnknownVillage(usize),
}

/// `w` is `v` after a day with the allocation, whatever the births.
pub open spec fn lived_day(v: Village, a: Allocation, tick: usize, w: Village) -> bool {
    exists|la: Seq<Event>, lb: Seq<Event>, n: nat, m: nat| #[trigger] day_result(v, a, tick, la, w, lb, n, m)
}

/// `mid` is each village of `vs` after a day with its plan's allocation.
pub open spec fn lived_days(
    vs: Seq<Village>,
    plans: Seq<(Allocation, Vec<OrderRequest>)>,
    tick: usize,
    mid: Seq<Village>,
) -> bool {
    &&& mid.len() == vs.len()
    &&& forall|k: int| 0 <= k < mid.len() ==> lived_day(vs[k], plans[k].0, tick, #[trigger] mid[k])
}

/// `o` is the order that `request` becomes as the `m`-th order of the day,
/// placed by the village with id `vid`: numbered and stamped `m`, a bid when
/// it buys, else an ask.
pub open spec fn order_placed(o: Order, vid: VillageId, request: OrderRequest, m: int) -> bool {
    &&& o.id == OrderId(m as usize)
    &&& o.participant_id == ParticipantId(participant_number(vid.0@))
    &&& o.resource_id.0@ == resource_name(request.resource)
    &&& o.order_type == (if request.is_buy {
        OrderType::Bid
    } else {
        OrderType::Ask
    })
    &&& o.original_quantity == request.quantity
    &&& o.effective_quantity == request.quantity
    &&& o.limit_price == request.price
    &&& o.timestamp == m
}

/// `os` is the orders that the first `n` villages placed, village by village,
/// each in its plan's order.
pub open spec fn placed(
    os: Seq<Order>,
    ids: Seq<(String, VillageId)>,
    vs: Seq<Village>,
    plans: Seq<(Allocation, Vec<OrderRequest>)>,
    n: int,
) -> bool
    decreases n,
{
    if n <= 0 {
        os.len() == 0
    } else {
        let reqs = plans[n - 1].1@;
        let start = os.len() - reqs.len();
        &&& start >= 0
        &&& placed(os.subrange(0, start), ids, vs, plans, n - 1)
        &&& forall|j: int|
            0 <= j < reqs.len() ==> order_placed(
                #[trigger] os[start + j],
                id_for(ids, vs[n - 1].id_str@).unwrap(),
                reqs[j],
                start + j,
            )
    }
}

/// The participants that the first `n` villages register, each with the
/// money it has after its day.
pub open spec fn registered(ids: Seq<(String, VillageId)>, vs: Seq<Village>, money: Seq<Dec>, n: int) -> Seq<
    Participant,
>
    decreases n,
{
    if n <= 0 {
        Seq::empty()
    } else {
        register(
            registered(ids, vs, money, n - 1),
            Participant {
                id: ParticipantId(participant_number(id_for(ids, vs[n - 1].id_str@).unwrap().0@)),
                currency: money[n - 1],
            },
        )
    }
}

/// The villages' money.
pub open spec fn moneys(vs: Seq<Village>) -> Seq<Dec> {
    Seq::new(vs.len(), |k: int| vs[k].money)
}

/// The auction owes success on these orders and participants.
pub open spec fn auction_owed(os: Seq<Order>, ps: Seq<Participant>) -> bool {
    &&& exactly(os, ps)
    &&& covered(os, ps)
    &&& forall|i: int| 0 <= i < os.len() ==> known(ps, (#[trigger] os[i]).participant_id)
}

/// The market's part of a day, from the placed orders `os`, the registered
/// participants `ps`, the last prices `last0` and the villages after their
/// day `mid`, to the villages `vs` and last prices `last` it leaves and
/// whether it `traded`: orders beyond the tested bounds skip the market; else
/// the auction runs on them, and either fails, where it owes no success,
/// leaving everything as it was, or succeeds, its clearing prices becoming
/// the last prices, and its fills are settled when they are within the tested
/// bounds.
pub open spec fn market_day(
    os: Seq<Order>,
    ps: Seq<Participant>,
    last0: Seq<(ResourceId, Dec)>,
    ids: Seq<(String, VillageId)>,
    mid: Seq<Village>,
    tick: usize,
    traded: bool,
    vs: Seq<Village>,
    last: Seq<(ResourceId, Dec)>,
) -> bool {
    if !ready_checked(os, ps, last0) {
        !traded && vs == mid && last == last0
    } else {
        ||| !traded && vs == mid && last == last0 && !auction_owed(os, ps)
        ||| exists|succ: AuctionSuccess, cur: Seq<Order>, cl: Seq<(ResourceId, ResourceClearing)>|
            #[trigger] cleared_by(os, last0, succ, cur, cl) && settles(os, ps, succ) && last
                == succ.clearing_prices@ && if settlement_checked(mid, succ.final_fills@) {
                traded && exists|market: String|
                    market@ == "market"@ && vs == #[trigger] settle_state(
                        ids,
                        mid,
                        succ.final_fills@,
                        tick,
                        market,
                        succ.final_fills@.len(),
                    ).0
            } else {
                !traded && vs == mid
            }
    }
}

/// `after` keeps `before` as its beginning.
pub open spec fn extends(before: Seq<Event>, after: Seq<Event>) -> bool {
    before.len() <= after.len() && forall|i: int| 0 <= i < before.len() ==> #[trigger] after[i] == before[i]
}

/// No village has a worker left.
pub open spec fn all_dead(vs: Seq<Village>) -> bool {
    forall|k: int| 0 <= k < vs.len() ==> (#[trigger] vs[k]).workers@.len() == 0
}

/// The text that names an order: the village, the resource, `bid` or `ask`,
/// and the tick, joined by underscores.
pub open spec fn order_text(village: Seq<char>, request: OrderRequest, tick: usize) -> Seq<char> {
    village + "_"@ + resource_name(request.resource) + "_"@ + (if request.is_buy {
        "bid"@
    } else {
        "ask"@
    }) + "_"@ + digits(tick as nat)
}

/// The text that names an order: the village, the resource, `bid` or `ask`,
/// and the tick, joined by underscores.
fn order_name(village: &String, request: &OrderRequest, tick: usize) -> (r: String)
    ensures
        r@ == order_text(village@, *request, tick),
{
    let side = if request.is_buy {
        "bid"
    } else {
        "ask"
    };
    String::from_str(village.as_str()).concat("_").concat(request.resource.as_str()).concat("_").concat(
        side,
    ).concat("_").concat(usize_text(tick).as_str())
}

/// A copy of a list of prices.
fn copy_prices(prices: &Vec<(ResourceId, Dec)>) -> (r: Vec<(ResourceId, Dec)>)
    ensures
        r@ == prices@,
{
    let mut r: Vec<(ResourceId, Dec)> = Vec::new();
    let mut k: usize = 0;
    while k < prices.len()
        invariant
            k <= prices@.len(),
            r@ == prices@.subrange(0, k as int),
        decreases prices@.len() - k,
    {
        r.push((prices[k].0.clone(), prices[k].1));
        proof {
            assert(r@ =~= prices@.subrange(0, k + 1));
        }
        k = k + 1;
    }
    proof {
        assert(r@ =~= prices@);
    }
    r
}

/// Whether every village is empty.
fn none_left(villages: &Vec<Village>) -> (r: bool)
    ensures
        r == all_dead(villages@),
{
    let mut k: usize = 0;
    while k < villages.len()
        invariant
            k <= villages@.len(),
            forall|j: int| 0 <= j < k ==> (#[trigger] villages@[j]).workers@.len() == 0,
        decreases villages@.len() - k,
    {
        if villages[k].workers.len() > 0 {
            return false;
        }
        k = k + 1;
    }
    true
}

/// One day for all villages, in order: each lives its day with its allocation,
/// registers its money with the market and places its orders, each logged;
/// then the market clears with up to ten rounds and, when it succeeds, its
/// prices become the last prices and its trades are settled. The day stops at
/// the first village that cannot start it.
/// The participants that `registered` gives depend only on the first `n`
/// amounts of money.
proof fn lemma_registered_prefix(ids: Seq<(String, VillageId)>, vs: Seq<Village>, a: Seq<Dec>, b: Seq<Dec>, n: int)
    requires
        n <= a.len(),
        n <= b.len(),
        forall|k: int| 0 <= k < n ==> a[k] == b[k],
    ensures
        registered(ids, vs, a, n) == registered(ids, vs, b, n),
    decreases n,
{
    if n > 0 {
        lemma_registered_prefix(ids, vs, a, b, n - 1);
    }
}

pub fn run_day(
    villages: &mut Vec<Village>,
    plans: &Vec<(Allocation, Vec<OrderRequest>)>,
    village_ids: &Vec<(String, VillageId)>,
    last_prices: &mut Vec<(ResourceId, Dec)>,
    logger: &mut EventLogger,
    tick: usize,
) -> (r: DayOutcome)
    requires
        plans@.len() == old(villages)@.len(),
        old(villages)@.len() <= 1000000,
        forall|k: int| 0 <= k < plans@.len() ==> (#[trigger] plans@[k]).1@.len() <= 4,
    ensures
        final(villages)@.len() == old(villages)@.len(),
        extends(old(logger)@, final(logger)@),
        match r {
            DayOutcome::Done { traded, all_dead: none } => {
                &&& none == all_dead(final(villages)@)
                &&& exists|mid: Seq<Village>, os: Seq<Order>|
                    #![trigger lived_days(old(villages)@, plans@, tick, mid), placed(os, village_ids@, old(villages)@, plans@, plans@.len() as int)]
                    {
                        &&& lived_days(old(villages)@, plans@, tick, mid)
                        &&& placed(os, village_ids@, old(villages)@, plans@, plans@.len() as int)
                        &&& market_day(
                            os,
                            registered(village_ids@, old(villages)@, moneys(mid), plans@.len() as int),
                            old(last_prices)@,
                            village_ids@,
                            mid,
                            tick,
                            traded,
                            final(villages)@,
                            final(last_prices)@,
                        )
                    }
            },
            DayOutcome::VillageOutOfRange(k) => k < old(villages)@.len() && !day_ready(
                old(villages)@[k as int],
                plans@[k as int].0,
            ),
            DayOutcome::UnknownVillage(k) => k < old(villages)@.len() && id_for(
                village_ids@,
                old(villages)@[k as int].id_str@,
            ) is None,
        },
{
    let ghost v0 = villages@;
    let ghost log0 = logger@;
    let mut builder = AuctionBuilder::new();
    let mut added: usize = 0;
    let ghost mut money: Seq<Dec> = Seq::empty();
    let mut i: usize = 0;
    while i < villages.len()
        invariant
            v0 == old(villages)@,
            log0 == old(logger)@,
            villages@.len() == v0.len(),
            plans@.len() == v0.len(),
            v0.len() <= 1000000,
            i <= v0.len(),
            forall|k: int| 0 <= k < plans@.len() ==> (#[trigger] plans@[k]).1@.len() <= 4,
            forall|k: int|
                0 <= k < i ==> lived_day(v0[k], plans@[k].0, tick, #[trigger] villages@[k]),
            forall|k: int| i <= k < v0.len() ==> #[trigger] villages@[k] == v0[k],
            builder.wf(),
            builder.next_order() == added,
            builder.next_stamp() == added,
            added <= 4 * i,
            extends(log0, logger@),
            builder.orders_spec().len() == added,
            placed(builder.orders_spec(), village_ids@, v0, plans@, i as int),
            money.len() == i,
            forall|k: int| 0 <= k < i ==> money[k] == (#[trigger] villages@[k]).money,
            builder.participants_spec() == registered(village_ids@, v0, money, i as int),
        decreases v0.len() - i,
    {
        let allocation = plans[i].0;
        if !day_ready_check(&villages[i], &allocation) {
            proof {
                assert(villages@[i as int] == v0[i as int]);
            }
            return DayOutcome::VillageOutOfRange(i);
        }
        let vid = match find_id(village_ids, &villages[i].id_str) {
            Some(vid) => vid,
            None => {
                proof {
                    assert(villages@[i as int] == v0[i as int]);
                }
                return DayOutcome::UnknownVillage(i);
            },
        };
        let ghost before = villages@;
        let ghost log_a = logger@;
        let mut v = villages.remove(i);
        proof {
            assert(v == before[i as int]);
            assert(v == v0[i as int]);
        }
        update_village(&mut v, allocation, logger, tick);
        let ghost log_b = logger@;
        proof {
            let (n, m) = choose|n: nat, m: nat| #[trigger] day_result(v0[i as int], allocation, tick, log_a, v, log_b, n, m);
            assert(lived_day(v0[i as int], plans@[i as int].0, tick, v));
            assert(log_b.len() >= log_a.len());
        }
        let ghost os0 = builder.orders_spec();
        builder.add_village(vid, v.money);
        proof {
            lemma_registered_prefix(village_ids@, v0, money, money.push(v.money), i as int);
            assert(id_for(village_ids@, v0[i as int].id_str@) == Some(*vid));
            assert(builder.participants_spec() == registered(village_ids@, v0, money.push(v.money), i + 1));
        }
        let orders = &plans[i].1;
        let mut j: usize = 0;
        while j < orders.len()
            invariant
                j <= orders@.len(),
                orders@.len() <= 4,
                builder.wf(),
                builder.next_order() == added + j,
                builder.next_stamp() == added + j,
                added <= 4 * i,
                i < 1000000,
                extends(log0, logger@),
                builder.orders_spec().len() == added + j,
                builder.orders_spec().subrange(0, added as int) == os0,
                os0.len() == added,
                forall|jj: int|
                    0 <= jj < j ==> order_placed(
                        #[trigger] builder.orders_spec()[added + jj],
                        *vid,
                        orders@[jj],
                        added + jj,
                    ),
                builder.participants_spec() == registered(village_ids@, v0, money.push(v.money), i + 1),
            decreases orders@.len() - j,
        {
            let request = orders[j];
            let ghost log_c = logger@;
            logger.log(
                tick,
                v.id_str.clone(),
                EventType::OrderPlaced {
                    resource: request.resource,
                    quantity: Dec::from_u32(request.quantity),
                    price: request.price,
                    side: if request.is_buy {
                        TradeSide::Buy
                    } else {
                        TradeSide::Sell
                    },
                    order_id: order_name(&v.id_str, &request, tick),
                },
            );
            let ghost ob = builder.orders_spec();
            builder.add_order(vid, request);
            proof {
                let oa = builder.orders_spec();
                assert(oa.drop_last() == ob);
                assert(oa.subrange(0, added as int) =~= os0) by {
                    assert forall|x: int| 0 <= x < added implies oa[x] == os0[x] by {
                        assert(oa[x] == ob[x]);
                        assert(ob.subrange(0, added as int)[x] == ob[x]);
                    }
                }
                assert forall|jj: int| 0 <= jj < j + 1 implies order_placed(
                    #[trigger] oa[added + jj],
                    *vid,
                    orders@[jj],
                    added + jj,
                ) by {
                    if jj < j {
                        assert(oa[added + jj] == ob[added + jj]);
                    } else {
                        assert(oa[added + jj] == oa.last());
                    }
                }
                assert(extends(log0, logger@)) by {
                    assert forall|x: int| 0 <= x < log0.len() implies #[trigger] logger@[x] == log0[x] by {
                        assert(logger@[x] == log_c[x]);
                    }
                }
            }
            j = j + 1;
        }
        proof {
            let os1 = builder.orders_spec();
            assert(orders@ == plans@[i as int].1@);
            assert(os1.subrange(0, os1.len() - orders@.len()) == os0);
            assert(placed(os1, village_ids@, v0, plans@, i + 1));
        }
        added = added + orders.len();
        let ghost vmoney = v.money;
        villages.insert(i, v);
        proof {
            money = money.push(vmoney);
            assert forall|k: int| 0 <= k < i + 1 implies money[k] == (#[trigger] villages@[k]).money by {
                if k < i {
                    assert(villages@[k] == before[k]);
                }
            }
            assert forall|k: int| 0 <= k < i + 1 implies lived_day(v0[k], plans@[k].0, tick, #[trigger] villages@[k]) by {
                if k < i {
                    assert(villages@[k] == before[k]);
                }
            }
            assert forall|k: int| i + 1 <= k < v0.len() implies #[trigger] villages@[k] == v0[k] by {
                assert(villages@[k] == before[k]);
            }
        }
        i = i + 1;
    }
    let ghost mid = villages@;
    let ghost last0 = last_prices@;
    proof {
        assert(lived_days(v0, plans@, tick, mid));
        assert(money =~= moneys(mid));
    }
    let (orders, participants) = builder.build();
    let ghost os = orders@;
    let ghost ps = participants@;
    let mut traded = false;
    if auction_ready_check(&orders, &participants, last_prices) {
        let result = run_auction(orders, participants, 10, copy_prices(last_prices));
        match result {
            Ok(success) => {
                *last_prices = copy_prices(&success.clearing_prices);
                let ghost (cur, cl) = choose|cur: Seq<Order>, cl: Seq<(ResourceId, ResourceClearing)>|
                    cleared_by(os, last0, success, cur, cl);
                proof {
                    assert(cleared_by(os, last0, success, cur, cl));
                }
                if settlement_check(villages, &success.final_fills) {
                    let ghost log_d = logger@;
                    apply_trades(villages, village_ids, &success.final_fills, logger, tick);
                    proof {
                        let fills = success.final_fills@;
                        let market = choose|market: String|
                            market@ == "market"@ && {
                                let s = #[trigger] settle_state(
                                    village_ids@,
                                    mid,
                                    fills,
                                    tick,
                                    market,
                                    fills.len(),
                                );
                                &&& villages@ == s.0
                                &&& appended(log_d, logger@, s.1)
                            };
                        law_settlement_touches_owners(village_ids@, mid, fills, tick, market, fills.len());
                        assert(settles(os, ps, success));
                        assert(extends(log0, logger@)) by {
                            assert forall|x: int| 0 <= x < log0.len() implies #[trigger] logger@[x] == log0[x] by {
                                assert(logger@[x] == log_d[x]);
                            }
                        }
                    }
                    traded = true;
                    proof {
                        let fills = success.final_fills@;
                        let market = choose|market: String|
                            market@ == "market"@ && villages@ == #[trigger] settle_state(
                                village_ids@,
                                mid,
                                fills,
                                tick,
                                market,
                                fills.len(),
                            ).0;
                        assert(market_day(os, ps, last0, village_ids@, mid, tick, traded, villages@, last_prices@));
                    }
                } else {
                    proof {
                        assert(market_day(os, ps, last0, village_ids@, mid, tick, traded, villages@, last_prices@));
                    }
                }
            },
            Err(_) => {
                proof {
                    assert(!auction_owed(os, ps));
                }
            },
        }
    }
    proof {
        assert(market_day(os, ps, last0, village_ids@, mid, tick, traded, villages@, last_prices@));
        assert(placed(os, village_ids@, v0, plans@, plans@.len() as int));
    }
    let none = none_left(villages);
    DayOutcome::Done { traded, all_dead: none }
}

} // verus!
