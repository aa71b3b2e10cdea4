//! The auction neither makes nor destroys money: under exact arithmetic the
//! final balances add up to the participants' currencies.
use crate::auction::{
    balance_settled, cleared_by, exactly, settles, AuctionSuccess, FinalBalance,
    clearing_entries, clears, distinct_order_ids, distinct_participants, fill_amount, fill_list,
    fill_value, final_fill_of, group_of, known, net_outflow, resource_cleared, side_filled,
    FinalFill, Order, OrderId, OrderType, Participant, ParticipantId, ResourceClearing, ResourceId,
    TentativeFill,
};
use crate::auction::{has_fill, live_names, outflow_dec};
use crate::decimal::{abs_int, unit, Dec};
use vstd::prelude::*;

verus! {

/// What a fill costs its participant: its value for a purchase, minus its
/// value for a sale.
pub open spec fn signed_value(f: FinalFill) -> int {
    if f.order_type == OrderType::Bid {
        fill_value(f)
    } else {
        -fill_value(f)
    }
}

/// The signed values of the first `n` fills, added up.
pub open spec fn total_signed(fills: Seq<FinalFill>, n: int) -> int
    decreases n,
{
    if n <= 0 {
        0
    } else {
        total_signed(fills, n - 1) + signed_value(fills[n - 1])
    }
}

/// The net outflows over the first `n` fills of the first `m` participants,
/// added up.
pub open spec fn sum_net(ps: Seq<Participant>, fills: Seq<FinalFill>, n: int, m: int) -> int
    decreases m,
{
    if m <= 0 {
        0
    } else {
        sum_net(ps, fills, n, m - 1) + net_outflow(fills, ps[m - 1].id, n)
    }
}

/// How many of the first `m` participants have the id.
pub open spec fn id_count(ps: Seq<Participant>, id: ParticipantId, m: int) -> int
    decreases m,
{
    if m <= 0 {
        0
    } else {
        id_count(ps, id, m - 1) + if ps[m - 1].id == id {
            1int
        } else {
            0
        }
    }
}

/// The currencies of the first `m` participants, added up.
#[verifier::opaque]
pub open spec fn currency_total(ps: Seq<Participant>, m: int) -> int
    decreases m,
{
    if m <= 0 {
        0
    } else {
        currency_total(ps, m - 1) + ps[m - 1].currency.v()
    }
}

proof fn lemma_sum_net_step(ps: Seq<Participant>, fills: Seq<FinalFill>, n: int, m: int)
    requires
        1 <= n <= fills.len(),
        0 <= m <= ps.len(),
    ensures
        sum_net(ps, fills, n, m) == sum_net(ps, fills, n - 1, m) + id_count(ps, fills[n - 1].participant_id, m)
            * signed_value(fills[n - 1]),
    decreases m,
{
    if m > 0 {
        lemma_sum_net_step(ps, fills, n, m - 1);
        let s = signed_value(fills[n - 1]);
        let c = id_count(ps, fills[n - 1].participant_id, m - 1);
        assert((c + 1) * s == c * s + s) by (nonlinear_arith);
    }
}

proof fn lemma_id_count_one(ps: Seq<Participant>, id: ParticipantId, m: int)
    requires
        0 <= m <= ps.len(),
        distinct_participants(ps),
    ensures
        (exists|k: int| 0 <= k < m && (#[trigger] ps[k]).id == id) ==> id_count(ps, id, m) == 1,
        !(exists|k: int| 0 <= k < m && (#[trigger] ps[k]).id == id) ==> id_count(ps, id, m) == 0,
    decreases m,
{
    if m > 0 {
        lemma_id_count_one(ps, id, m - 1);
        if ps[m - 1].id == id {
            assert(!(exists|k: int| 0 <= k < m - 1 && (#[trigger] ps[k]).id == id)) by {
                if exists|k: int| 0 <= k < m - 1 && (#[trigger] ps[k]).id == id {
                    let k = choose|k: int| 0 <= k < m - 1 && (#[trigger] ps[k]).id == id;
                    assert(ps[k].id != ps[m - 1].id);
                }
            }
        } else {
            if exists|k: int| 0 <= k < m && (#[trigger] ps[k]).id == id {
                let k = choose|k: int| 0 <= k < m && (#[trigger] ps[k]).id == id;
                assert(k < m - 1);
            }
        }
    }
}

/// With distinct participants and every fill's participant among them, the
/// participants' net outflows add up to the fills' signed values.
pub proof fn lemma_sum_net_total(ps: Seq<Participant>, fills: Seq<FinalFill>, n: int)
    requires
        0 <= n <= fills.len(),
        distinct_participants(ps),
        forall|i: int| 0 <= i < fills.len() ==> known(ps, (#[trigger] fills[i]).participant_id),
    ensures
        sum_net(ps, fills, n, ps.len() as int) == total_signed(fills, n),
    decreases n,
{
    if n == 0 {
        lemma_sum_net_zero(ps, fills, ps.len() as int);
    } else {
        lemma_sum_net_total(ps, fills, n - 1);
        lemma_sum_net_step(ps, fills, n, ps.len() as int);
        assert(known(ps, fills[n - 1].participant_id));
        lemma_id_count_one(ps, fills[n - 1].participant_id, ps.len() as int);
    }
}

proof fn lemma_sum_net_zero(ps: Seq<Participant>, fills: Seq<FinalFill>, m: int)
    requires
        0 <= m <= ps.len(),
    ensures
        sum_net(ps, fills, 0, m) == 0,
    decreases m,
{
    if m > 0 {
        lemma_sum_net_zero(ps, fills, m - 1);
    }
}

/// The side of the order of `cur` with the id.
pub open spec fn side_of(cur: Seq<Order>, id: OrderId) -> OrderType {
    cur[choose|j: int| 0 <= j < cur.len() && cur[j].id == id].order_type
}

/// `q` units at price `p` (in units of `Dec::v`), counted positive for a bid
/// and negative for an ask.
pub open spec fn sided(t: OrderType, q: int, p: int) -> int {
    if t == OrderType::Bid {
        q * p
    } else {
        -(q * p)
    }
}

/// The signed value of a fill entry: its quantity at its clearing price, with
/// the side of its order in `cur`.
pub open spec fn entry_value(cur: Seq<Order>, e: (ResourceId, Dec, TentativeFill)) -> int {
    sided(side_of(cur, e.2.order_id), e.2.filled_quantity as int, e.1.v())
}

/// The signed values of the first `n` entries, added up.
pub open spec fn entries_total(cur: Seq<Order>, es: Seq<(ResourceId, Dec, TentativeFill)>, n: int) -> int
    decreases n,
{
    if n <= 0 {
        0
    } else {
        entries_total(cur, es, n - 1) + entry_value(cur, es[n - 1])
    }
}

/// The signed values of the first `n` tentative fills at price `p`, added up.
pub open spec fn fills_total(cur: Seq<Order>, tfs: Seq<TentativeFill>, p: int, n: int) -> int
    decreases n,
{
    if n <= 0 {
        0
    } else {
        fills_total(cur, tfs, p, n - 1) + sided(side_of(cur, tfs[n - 1].order_id), tfs[n - 1].filled_quantity as int, p)
    }
}

proof fn lemma_side_of(cur: Seq<Order>, j: int)
    requires
        distinct_order_ids(cur),
        0 <= j < cur.len(),
    ensures
        side_of(cur, cur[j].id) == cur[j].order_type,
{
    let k = choose|k: int| 0 <= k < cur.len() && cur[k].id == cur[j].id;
    assert(cur[k].id == cur[j].id);
}

/// Each fill's signed value is its entry's.
proof fn lemma_fills_are_entries(
    cur: Seq<Order>,
    es: Seq<(ResourceId, Dec, TentativeFill)>,
    fills: Seq<FinalFill>,
    n: int,
)
    requires
        distinct_order_ids(cur),
        0 <= n <= fills.len(),
        fills.len() == es.len(),
        forall|i: int| 0 <= i < es.len() ==> final_fill_of(cur, es[i], #[trigger] fills[i]),
    ensures
        total_signed(fills, n) == entries_total(cur, es, n),
    decreases n,
{
    if n > 0 {
        lemma_fills_are_entries(cur, es, fills, n - 1);
        let f = fills[n - 1];
        let e = es[n - 1];
        assert(final_fill_of(cur, e, f));
        let j = choose|j: int|
            0 <= j < cur.len() && (#[trigger] cur[j]).id == e.2.order_id && cur[j].participant_id
                == f.participant_id && cur[j].order_type == f.order_type;
        lemma_side_of(cur, j);
    }
}

proof fn lemma_entries_prefix(
    cur: Seq<Order>,
    a: Seq<(ResourceId, Dec, TentativeFill)>,
    b: Seq<(ResourceId, Dec, TentativeFill)>,
    n: int,
)
    requires
        0 <= n <= a.len(),
        n <= b.len(),
        forall|i: int| 0 <= i < n ==> a[i] == b[i],
    ensures
        entries_total(cur, a, n) == entries_total(cur, b, n),
    decreases n,
{
    if n > 0 {
        lemma_entries_prefix(cur, a, b, n - 1);
    }
}

/// Summing over two sequences one after the other.
proof fn lemma_entries_concat(
    cur: Seq<Order>,
    a: Seq<(ResourceId, Dec, TentativeFill)>,
    b: Seq<(ResourceId, Dec, TentativeFill)>,
    m: int,
)
    requires
        0 <= m <= b.len(),
    ensures
        entries_total(cur, a + b, a.len() + m) == entries_total(cur, a, a.len() as int) + entries_total(cur, b, m),
    decreases m,
{
    if m == 0 {
        lemma_entries_prefix(cur, a + b, a, a.len() as int);
    } else {
        lemma_entries_concat(cur, a, b, m - 1);
        assert((a + b)[a.len() + m - 1] == b[m - 1]);
    }
}

/// A block of a clearing's entries sums as its tentative fills do at its
/// price.
proof fn lemma_block_total(cur: Seq<Order>, r: ResourceId, p: Dec, tfs: Seq<TentativeFill>, m: int)
    requires
        0 <= m <= tfs.len(),
    ensures
        entries_total(cur, Seq::new(tfs.len(), |t: int| (r, p, tfs[t])), m) == fills_total(cur, tfs, p.v(), m),
    decreases m,
{
    if m > 0 {
        lemma_block_total(cur, r, p, tfs, m - 1);
    }
}

proof fn lemma_fills_total_prefix(cur: Seq<Order>, a: Seq<TentativeFill>, b: Seq<TentativeFill>, p: int, n: int)
    requires
        0 <= n <= a.len(),
        n <= b.len(),
        forall|i: int| 0 <= i < n ==> a[i] == b[i],
    ensures
        fills_total(cur, a, p, n) == fills_total(cur, b, p, n),
    decreases n,
{
    if n > 0 {
        lemma_fills_total_prefix(cur, a, b, p, n - 1);
    }
}

/// The fills of price-time priority at price `p` sum to the bids' total less
/// the asks' total, at `p`, when the orders are orders of `cur`.
proof fn lemma_fill_list_total(cur: Seq<Order>, g: Seq<Order>, p: int, vol: int, n: int)
    requires
        distinct_order_ids(cur),
        0 <= n <= g.len(),
        forall|k: int| 0 <= k < g.len() ==> exists|j: int| 0 <= j < cur.len() && #[trigger] g[k] == cur[j],
    ensures
        fills_total(cur, fill_list(g, p, vol, n), p, fill_list(g, p, vol, n).len() as int)
            == (side_filled(g, true, p, vol, n) - side_filled(g, false, p, vol, n)) * p,
    decreases n,
{
    if n > 0 {
        lemma_fill_list_total(cur, g, p, vol, n - 1);
        let rest = fill_list(g, p, vol, n - 1);
        let q = fill_amount(g, n - 1, p, vol);
        let b = side_filled(g, true, p, vol, n - 1);
        let a = side_filled(g, false, p, vol, n - 1);
        let o = g[n - 1];
        let j = choose|j: int| 0 <= j < cur.len() && #[trigger] g[n - 1] == cur[j];
        lemma_side_of(cur, j);
        assert(0 <= q <= o.effective_quantity);
        if q > 0 {
            let all = fill_list(g, p, vol, n);
            assert(all == rest.push(TentativeFill { order_id: o.id, filled_quantity: q as u64 }));
            lemma_fills_total_prefix(cur, all, rest, p, rest.len() as int);
            assert(all.len() == rest.len() + 1);
            assert(all[rest.len() as int].order_id == o.id);
            assert(all[rest.len() as int].filled_quantity as int == q);
            assert(side_of(cur, o.id) == o.order_type);
            assert(fills_total(cur, all, p, all.len() as int) == fills_total(cur, rest, p, rest.len() as int)
                + sided(o.order_type, q, p));
            assert(fills_total(cur, rest, p, rest.len() as int) == (b - a) * p);
            if o.order_type == OrderType::Bid {
                assert((b - a) * p + q * p == (b + q - a) * p) by (nonlinear_arith);
                assert(sided(o.order_type, q, p) == q * p);
                assert(side_filled(g, true, p, vol, n) == b + q);
                assert(side_filled(g, false, p, vol, n) == a);
            } else {
                assert((b - a) * p - q * p == (b - (a + q)) * p) by (nonlinear_arith);
                assert(sided(o.order_type, q, p) == -(q * p));
                assert(side_filled(g, true, p, vol, n) == b);
                assert(side_filled(g, false, p, vol, n) == a + q);
            }
        } else {
            assert(q == 0);
            assert(fill_list(g, p, vol, n) == rest);
            assert(side_filled(g, true, p, vol, n) == b);
            assert(side_filled(g, false, p, vol, n) == a);
        }
    } else {
        assert((0 - 0) * p == 0) by (nonlinear_arith);
    }
}

/// The members of a group are orders of `cur`.
proof fn lemma_group_members(cur: Seq<Order>, name: Seq<char>, n: int)
    requires
        0 <= n <= cur.len(),
    ensures
        forall|k: int|
            0 <= k < group_of(cur, name, n).len() ==> exists|j: int|
                0 <= j < cur.len() && #[trigger] group_of(cur, name, n)[k] == cur[j],
    decreases n,
{
    if n > 0 {
        lemma_group_members(cur, name, n - 1);
        let g0 = group_of(cur, name, n - 1);
        let g = group_of(cur, name, n);
        assert forall|k: int| 0 <= k < g.len() implies exists|j: int|
            0 <= j < cur.len() && #[trigger] g[k] == cur[j] by {
            if k < g0.len() {
                assert(g[k] == g0[k]);
                let j = choose|j: int| 0 <= j < cur.len() && #[trigger] g0[k] == cur[j];
                assert(g[k] == cur[j]);
            } else {
                assert(g[k] == cur[n - 1]);
            }
        }
    }
}

/// The entries of the clearings in `cl` sum to nothing: in each, bids and
/// asks fill the same volume at one price.
proof fn lemma_clearings_balance(
    cur: Seq<Order>,
    prices: Seq<(ResourceId, Dec)>,
    names: Seq<Seq<char>>,
    k: int,
    cl: Seq<(ResourceId, ResourceClearing)>,
)
    requires
        distinct_order_ids(cur),
        0 <= k <= names.len(),
        clears(cur, prices, names, k, cl),
    ensures
        entries_total(cur, clearing_entries(cl, cl.len() as int), clearing_entries(cl, cl.len() as int).len() as int) == 0,
    decreases k,
{
    if k > 0 {
        let g = group_of(cur, names[k - 1], cur.len() as int);
        if crate::auction::no_trade(g) {
            lemma_clearings_balance(cur, prices, names, k - 1, cl);
        } else {
            let init = cl.drop_last();
            lemma_clearings_balance(cur, prices, names, k - 1, init);
            let c = cl.last();
            let p = c.1.clearing_price;
            let tfs = c.1.tentative_fills@;
            let block = Seq::new(tfs.len(), |t: int| (c.0, p, tfs[t]));
            assert(clearing_entries(init, init.len() as int) =~= clearing_entries(cl, cl.len() - 1)) by {
                lemma_entries_same(cl, init, cl.len() - 1);
            }
            assert(clearing_entries(cl, cl.len() as int) == clearing_entries(init, init.len() as int) + block);
            lemma_entries_concat(cur, clearing_entries(init, init.len() as int), block, block.len() as int);
            lemma_block_total(cur, c.0, p, tfs, tfs.len() as int);
            lemma_group_members(cur, names[k - 1], cur.len() as int);
            assert(resource_cleared(g, crate::auction::first_price(prices, names[k - 1], 0), c.1));
            lemma_fill_list_total(cur, g, p.v(), c.1.matched_volume as int, g.len() as int);
            assert(0 * p.v() == 0) by (nonlinear_arith);
        }
    }
}

/// The entries of the first `c` clearings depend only on those clearings.
proof fn lemma_entries_same(a: Seq<(ResourceId, ResourceClearing)>, b: Seq<(ResourceId, ResourceClearing)>, c: int)
    requires
        0 <= c <= a.len(),
        c <= b.len(),
        forall|i: int| 0 <= i < c ==> a[i] == b[i],
    ensures
        clearing_entries(a, c) == clearing_entries(b, c),
    decreases c,
{
    if c > 0 {
        lemma_entries_same(a, b, c - 1);
        assert(a[c - 1] == b[c - 1]);
    }
}

/// The final currencies of the first `m` balances, added up.
#[verifier::opaque]
pub open spec fn balance_total(bal: Seq<FinalBalance>, m: int) -> int
    decreases m,
{
    if m <= 0 {
        0
    } else {
        balance_total(bal, m - 1) + bal[m - 1].final_currency.v()
    }
}

proof fn lemma_balances(ps: Seq<Participant>, bal: Seq<FinalBalance>, fills: Seq<FinalFill>, m: int)
    requires
        0 <= m <= ps.len(),
        bal.len() == ps.len(),
        forall|i: int| 0 <= i < bal.len() ==> balance_settled(ps[i], #[trigger] bal[i], fills, true),
    ensures
        balance_total(bal, m) == currency_total(ps, m) - sum_net(ps, fills, fills.len() as int, m),
    decreases m,
{
    reveal(balance_total);
    reveal(currency_total);
    if m > 0 {
        lemma_balances(ps, bal, fills, m - 1);
        assert(balance_settled(ps[m - 1], bal[m - 1], fills, true));
    }
}

/// Under exact arithmetic an auction's settlement neither makes nor destroys
/// money: the participants' final currencies add up to what they had. Every
/// resource clears at one price with its bids and asks filling the same
/// volume, so what buyers pay is what sellers receive.
pub proof fn law_auction_conserves_money(
    orders: Seq<Order>,
    participants: Seq<Participant>,
    last: Seq<(ResourceId, Dec)>,
    succ: AuctionSuccess,
    cur: Seq<Order>,
    cl: Seq<(ResourceId, ResourceClearing)>,
)
    requires
        distinct_order_ids(orders),
        distinct_participants(participants),
        exactly(orders, participants),
        settles(orders, participants, succ),
        cleared_by(orders, last, succ, cur, cl),
    ensures
        balance_total(succ.final_balances@, succ.final_balances@.len() as int) == currency_total(
            participants,
            participants.len() as int,
        ),
{
    let fills = succ.final_fills@;
    let bal = succ.final_balances@;
    let es = clearing_entries(cl, cl.len() as int);
    let names = live_names(cur, cur.len() as int);
    assert(distinct_order_ids(cur)) by {
        assert forall|i: int, j: int| 0 <= i < cur.len() && 0 <= j < cur.len() && i != j implies cur[i].id != cur[j].id by {
            assert(cur[i].id == orders[i].id);
            assert(cur[j].id == orders[j].id);
        }
    }
    lemma_fills_are_entries(cur, es, fills, fills.len() as int);
    lemma_clearings_balance(cur, last, names, names.len() as int, cl);
    lemma_sum_net_total(participants, fills, fills.len() as int);
    assert forall|i: int| 0 <= i < bal.len() implies balance_settled(participants[i], #[trigger] bal[i], fills, true) by {
        assert(balance_settled(participants[i], bal[i], fills, exactly(orders, participants)));
    }
    lemma_balances(participants, bal, fills, participants.len() as int);
}

/// The participants' net outflows in a settled auction add up to nothing:
/// every unit bought is a unit sold, at one price per resource.
proof fn lemma_net_outflows_cancel(
    orders: Seq<Order>,
    participants: Seq<Participant>,
    last: Seq<(ResourceId, Dec)>,
    succ: AuctionSuccess,
    cur: Seq<Order>,
    cl: Seq<(ResourceId, ResourceClearing)>,
)
    requires
        distinct_order_ids(orders),
        distinct_participants(participants),
        settles(orders, participants, succ),
        cleared_by(orders, last, succ, cur, cl),
    ensures
        sum_net(participants, succ.final_fills@, succ.final_fills@.len() as int, participants.len() as int) == 0,
{
    let fills = succ.final_fills@;
    let es = clearing_entries(cl, cl.len() as int);
    let names = live_names(cur, cur.len() as int);
    assert(distinct_order_ids(cur)) by {
        assert forall|i: int, j: int| 0 <= i < cur.len() && 0 <= j < cur.len() && i != j implies cur[i].id != cur[j].id by {
            assert(cur[i].id == orders[i].id);
            assert(cur[j].id == orders[j].id);
        }
    }
    lemma_fills_are_entries(cur, es, fills, fills.len() as int);
    lemma_clearings_balance(cur, last, names, names.len() as int, cl);
    lemma_sum_net_total(participants, fills, fills.len() as int);
}

proof fn lemma_balances_near(ps: Seq<Participant>, bal: Seq<FinalBalance>, fills: Seq<FinalFill>, m: int, exact: bool)
    requires
        0 <= m <= ps.len(),
        bal.len() == ps.len(),
        forall|i: int| 0 <= i < bal.len() ==> balance_settled(ps[i], #[trigger] bal[i], fills, exact),
    ensures
        abs_int(balance_total(bal, m) - (currency_total(ps, m) - sum_net(ps, fills, fills.len() as int, m)))
            <= m * ((fills.len() + 1) * unit()),
    decreases m,
{
    reveal(balance_total);
    reveal(currency_total);
    if m > 0 {
        lemma_balances_near(ps, bal, fills, m - 1, exact);
        assert(balance_settled(ps[m - 1], bal[m - 1], fills, exact));
        let a = (fills.len() + 1) * unit();
        assert(fills.len() * unit() + unit() == a) by (nonlinear_arith)
            requires
                a == (fills.len() + 1) * unit(),
        ;
        assert((m - 1) * a + a == m * a) by (nonlinear_arith);
    }
}

/// The final balances add up to the participants' currencies within a unit
/// per fill and participant, and nobody who started from zero or more ends
/// below zero.
#[verifier::opaque]
pub open spec fn balances_near(participants: Seq<Participant>, succ: AuctionSuccess) -> bool {
    &&& abs_int(
        balance_total(succ.final_balances@, succ.final_balances@.len() as int) - currency_total(
            participants,
            participants.len() as int,
        ),
    ) <= participants.len() * ((succ.final_fills@.len() + 1) * unit())
    &&& forall|k: int|
        0 <= k < succ.final_balances@.len() ==> (participants[k].currency.v() >= 0 ==> (
        #[trigger] succ.final_balances@[k]).final_currency.v() >= 0)
}

/// An auction's settlement neither makes nor destroys money beyond decimal
/// rounding: the participants' final currencies add up to what they had,
/// within a unit per fill and participant (half a unit for each balance's
/// subtraction, one per fill for adding up its value), and nobody who
/// traded ends below zero.
pub proof fn law_auction_balances_add_up(
    orders: Seq<Order>,
    participants: Seq<Participant>,
    last: Seq<(ResourceId, Dec)>,
    succ: AuctionSuccess,
    cur: Seq<Order>,
    cl: Seq<(ResourceId, ResourceClearing)>,
)
    requires
        distinct_order_ids(orders),
        distinct_participants(participants),
        settles(orders, participants, succ),
        cleared_by(orders, last, succ, cur, cl),
    ensures
        balances_near(participants, succ),
{
    let fills = succ.final_fills@;
    let bal = succ.final_balances@;
    let ex = exactly(orders, participants);
    lemma_net_outflows_cancel(orders, participants, last, succ, cur, cl);
    assert forall|i: int| 0 <= i < bal.len() implies balance_settled(participants[i], #[trigger] bal[i], fills, ex) by {}
    lemma_balances_near(participants, bal, fills, participants.len() as int, ex);
    reveal(balances_near);
    assert forall|k: int|
        0 <= k < bal.len() implies (participants[k].currency.v() >= 0 ==> (#[trigger] bal[k]).final_currency.v() >= 0) by {
        assert(balance_settled(participants[k], bal[k], fills, ex));
    }
}

} // verus!
