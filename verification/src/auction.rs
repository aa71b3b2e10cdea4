//! A multi-resource double auction with budget constraints.
//!
//! Each resource clears on its own: the clearing price is the submitted limit
//! price that trades the largest volume, and orders are filled in price-time
//! priority. Participants whose purchases exceed their currency have their buy
//! orders scaled down and the auction is run again.
use crate::decimal::{
    abs_int, dabs, dec_add, dec_div, dec_floor, dec_mul, dec_sub, dec_to_u64, decimal_difference,
    decimal_product, decimal_quotient, decimal_sum, dmin, lemma_product_size, lemma_rounded_size,
    lemma_exact_difference, lemma_exact_sum, lemma_pow10_positive, lemma_unit,
    lemma_pow10_monotone, lemma_rounded_nonneg, lemma_v_sign, limit, pow10, unit, within, Dec,
    MAX_MANTISSA,
};
use vstd::prelude::*;

use crate::money::{balance_total, currency_total, law_auction_conserves_money};
verus! {

/// The name of a traded resource.
#[derive(Debug)]
pub struct ResourceId(pub String);

impl Clone for ResourceId {
    fn clone(&self) -> (r: Self)
        ensures
            r == *self,
    {
        ResourceId(self.0.clone())
    }
}

impl ResourceId {
    /// Two resource ids name the same resource.
    pub fn same(&self, other: &ResourceId) -> (r: bool)
        ensures
            r == (self.0@ == other.0@),
    {
        self.0 == other.0
    }
}

#[derive(Debug, Clone, Copy, PartialEq, Eq, Structural)]
pub struct ParticipantId(pub u32);

#[derive(Debug, Clone, Copy, PartialEq, Eq, Structural)]
pub struct OrderId(pub usize);

#[derive(Debug, Clone, Copy, PartialEq, Eq, Structural)]
pub enum OrderType {
    Bid,
    Ask,
}

#[derive(Debug)]
pub struct Order {
    pub id: OrderId,
    pub participant_id: ParticipantId,
    pub resource_id: ResourceId,
    pub order_type: OrderType,
    pub original_quantity: u64,
    /// The quantity used in matching; budget pruning may lower it.
    pub effective_quantity: u64,
    pub limit_price: Dec,
    pub timestamp: u64,
}

impl Clone for Order {
    fn clone(&self) -> (r: Self)
        ensures
            r == *self,
    {
        Order {
            id: self.id,
            participant_id: self.participant_id,
            resource_id: self.resource_id.clone(),
            order_type: self.order_type,
            original_quantity: self.original_quantity,
            effective_quantity: self.effective_quantity,
            limit_price: self.limit_price,
            timestamp: self.timestamp,
        }
    }
}

#[derive(Debug, Clone, Copy)]
pub struct Participant {
    pub id: ParticipantId,
    pub currency: Dec,
}

/// The quantity of one order filled in one round of clearing.
#[derive(Debug, Clone, Copy)]
pub struct TentativeFill {
    pub order_id: OrderId,
    pub filled_quantity: u64,
}

/// The outcome of clearing one resource.
#[derive(Debug)]
pub struct ResourceClearing {
    pub clearing_price: Dec,
    pub matched_volume: u64,
    pub tentative_fills: Vec<TentativeFill>,
}

// ---------------------------------------------------------------------------
// The model of one resource's clearing.
// ---------------------------------------------------------------------------
/// The order takes part in matching.
pub open spec fn live(o: Order) -> bool {
    o.effective_quantity > 0
}

/// The order is a live order on the given side (`true` for bids) that trades
/// at price `p`: a bid whose limit is at least `p`, or an ask whose limit is at
/// most `p`.
pub open spec fn trades_at(o: Order, bid_side: bool, p: int) -> bool {
    &&& live(o)
    &&& (o.order_type == OrderType::Bid) == bid_side
    &&& if bid_side {
        o.limit_price.v() >= p
    } else {
        o.limit_price.v() <= p
    }
}

/// Order `j` comes before order `i` in price-time priority on the given side:
/// a better limit price (higher for bids, lower for asks), then an earlier
/// timestamp, then an earlier position.
pub open spec fn before(s: Seq<Order>, bid_side: bool, j: int, i: int) -> bool {
    let a = s[j].limit_price.v();
    let b = s[i].limit_price.v();
    ||| (bid_side && a > b)
    ||| (!bid_side && a < b)
    ||| (a == b && (s[j].timestamp < s[i].timestamp || (s[j].timestamp == s[i].timestamp && j
        < i)))
}

/// The sum of the effective quantities of the first `n` orders whose index
/// satisfies `pred`.
pub open spec fn sum_where(s: Seq<Order>, pred: spec_fn(int) -> bool, n: int) -> int
    decreases n,
{
    if n <= 0 {
        0
    } else {
        sum_where(s, pred, n - 1) + if pred(n - 1) {
            s[n - 1].effective_quantity as int
        } else {
            0
        }
    }
}

/// The indices of orders on one side that trade at price `p`.
pub open spec fn at_price(s: Seq<Order>, bid_side: bool, p: int) -> spec_fn(int) -> bool {
    |j: int| trades_at(s[j], bid_side, p)
}

/// The indices of orders on one side that trade at `p` and come before order `i`.
pub open spec fn ahead_of(s: Seq<Order>, bid_side: bool, p: int, i: int) -> spec_fn(int) -> bool {
    |j: int| trades_at(s[j], bid_side, p) && before(s, bid_side, j, i)
}

/// Every index.
pub open spec fn every() -> spec_fn(int) -> bool {
    |j: int| true
}

/// The indices marked in `b`.
pub open spec fn marked(b: Seq<bool>) -> spec_fn(int) -> bool {
    |j: int| b[j]
}

/// The quantity that bids are willing to buy at price `p`.
pub open spec fn demand(s: Seq<Order>, p: int) -> int {
    sum_where(s, at_price(s, true, p), s.len() as int)
}

/// The quantity that asks are willing to sell at price `p`.
pub open spec fn supply(s: Seq<Order>, p: int) -> int {
    sum_where(s, at_price(s, false, p), s.len() as int)
}

/// The volume that trades at price `p`.
pub open spec fn volume(s: Seq<Order>, p: int) -> int {
    let d = demand(s, p);
    let q = supply(s, p);
    if d <= q {
        d
    } else {
        q
    }
}

/// Distance of a price from the last clearing price, as the auction computes it.
pub open spec fn distance(p: Dec, last: Dec) -> int {
    dabs(decimal_difference(p, last)).v()
}

/// Price `p` is strictly preferred to price `q`: it trades more, or as much and
/// is nearer to the last clearing price (when there is one), or equally near
/// and higher.
pub open spec fn better(s: Seq<Order>, last: Option<Dec>, p: Dec, q: Dec) -> bool {
    let vp = volume(s, p.v());
    let vq = volume(s, q.v());
    ||| vp > vq
    ||| (vp == vq && match last {
        Some(l) => distance(p, l) < distance(q, l) || (distance(p, l) == distance(q, l) && p.v()
            > q.v()),
        None => p.v() > q.v(),
    })
}

/// What order `i` is filled at clearing price `p` and volume `vol`: the live
/// orders on its side that trade at `p` share `vol` in priority order, each
/// taking as much as it offers of what the orders before it left.
pub open spec fn fill_amount(s: Seq<Order>, i: int, p: int, vol: int) -> int {
    let bid_side = s[i].order_type == OrderType::Bid;
    if trades_at(s[i], bid_side, p) {
        let ahead = sum_where(s, ahead_of(s, bid_side, p, i), s.len() as int);
        let left = if ahead >= vol {
            0
        } else {
            vol - ahead
        };
        if s[i].effective_quantity <= left {
            s[i].effective_quantity as int
        } else {
            left
        }
    } else {
        0
    }
}

/// The fills of the first `n` orders, in order, leaving out those that fill
/// nothing.
pub open spec fn fill_list(s: Seq<Order>, p: int, vol: int, n: int) -> Seq<TentativeFill>
    decreases n,
{
    if n <= 0 {
        Seq::empty()
    } else {
        let rest = fill_list(s, p, vol, n - 1);
        let q = fill_amount(s, n - 1, p, vol);
        if q > 0 {
            rest.push(TentativeFill { order_id: s[n - 1].id, filled_quantity: q as u64 })
        } else {
            rest
        }
    }
}

/// The total filled on one side among the first `n` orders.
pub open spec fn side_filled(s: Seq<Order>, bid_side: bool, p: int, vol: int, n: int) -> int
    decreases n,
{
    if n <= 0 {
        0
    } else {
        side_filled(s, bid_side, p, vol, n - 1) + if (s[n - 1].order_type == OrderType::Bid)
            == bid_side {
            fill_amount(s, n - 1, p, vol)
        } else {
            0
        }
    }
}

/// The sum of all effective quantities.
pub open spec fn total_effective(s: Seq<Order>) -> int {
    sum_where(s, every(), s.len() as int)
}

/// Prices in the auction stay within half the decimal range, so that their
/// differences can be taken.
pub open spec fn price_ok(p: Dec) -> bool {
    p.wf() && -limit() / 2 <= p.v() <= limit() / 2
}

/// No two orders share an id.
pub open spec fn distinct_order_ids(s: Seq<Order>) -> bool {
    forall|i: int, j: int| 0 <= i < s.len() && 0 <= j < s.len() && i != j ==> s[i].id != s[j].id
}

/// The orders of one resource may be cleared.
pub open spec fn clearable(s: Seq<Order>, last: Option<Dec>) -> bool {
    &&& forall|i: int| 0 <= i < s.len() ==> price_ok(#[trigger] s[i].limit_price)
    &&& total_effective(s) <= u64::MAX
    &&& match last {
        Some(l) => price_ok(l),
        None => true,
    }
}

// ---------------------------------------------------------------------------
// Lemmas about sums over orders.
// ---------------------------------------------------------------------------
pub proof fn lemma_sum_where_nonneg(s: Seq<Order>, pred: spec_fn(int) -> bool, n: int)
    ensures
        sum_where(s, pred, n) >= 0,
    decreases n,
{
    if n > 0 {
        lemma_sum_where_nonneg(s, pred, n - 1);
    }
}

pub proof fn lemma_sum_where_ext(
    s: Seq<Order>,
    p1: spec_fn(int) -> bool,
    p2: spec_fn(int) -> bool,
    n: int,
)
    requires
        forall|j: int| #![trigger p1(j)] #![trigger p2(j)] 0 <= j < n ==> (p1(j) <==> p2(j)),
    ensures
        sum_where(s, p1, n) == sum_where(s, p2, n),
    decreases n,
{
    if n > 0 {
        lemma_sum_where_ext(s, p1, p2, n - 1);
    }
}

pub proof fn lemma_sum_where_mono(
    s: Seq<Order>,
    p1: spec_fn(int) -> bool,
    p2: spec_fn(int) -> bool,
    n: int,
)
    requires
        forall|j: int| 0 <= j < n && #[trigger] p1(j) ==> p2(j),
    ensures
        sum_where(s, p1, n) <= sum_where(s, p2, n),
    decreases n,
{
    if n > 0 {
        lemma_sum_where_mono(s, p1, p2, n - 1);
    }
}

/// Adding one index to the predicate adds that order's quantity.
pub proof fn lemma_sum_where_add_one(
    s: Seq<Order>,
    p1: spec_fn(int) -> bool,
    p2: spec_fn(int) -> bool,
    k: int,
    n: int,
)
    requires
        0 <= k < n,
        !p1(k),
        p2(k),
        forall|j: int| #![trigger p1(j)] #![trigger p2(j)] 0 <= j < n && j != k ==> (p1(j) <==> p2(j)),
    ensures
        sum_where(s, p2, n) == sum_where(s, p1, n) + s[k].effective_quantity,
    decreases n,
{
    if n - 1 == k {
        lemma_sum_where_ext(s, p1, p2, n - 1);
    } else {
        lemma_sum_where_add_one(s, p1, p2, k, n - 1);
    }
}

pub proof fn lemma_fill_list_bound(s: Seq<Order>, p: int, vol: int, n: int)
    ensures
        fill_list(s, p, vol, n).len() <= if n < 0 {
            0
        } else {
            n
        },
    decreases n,
{
    if n > 0 {
        lemma_fill_list_bound(s, p, vol, n - 1);
    }
}

// ---------------------------------------------------------------------------
// Clearing one resource.
// ---------------------------------------------------------------------------
/// The demand (`bid_side`) or supply at price `p`.
fn quantity_at(orders: &Vec<Order>, bid_side: bool, p: &Dec) -> (r: u64)
    requires
        clearable(orders@, None),
        p.wf(),
    ensures
        r == sum_where(orders@, at_price(orders@, bid_side, p.v()), orders@.len() as int),
{
    let ghost s = orders@;
    let mut total: u64 = 0;
    let mut i: usize = 0;
    while i < orders.len()
        invariant
            s == orders@,
            clearable(s, None),
            i <= s.len(),
            total == sum_where(s, at_price(s, bid_side, p.v()), i as int),
            p.wf(),
        decreases s.len() - i,
    {
        proof {
            lemma_sum_where_mono(s, at_price(s, bid_side, p.v()), every(), i as int + 1);
            lemma_total_prefix(s, i as int + 1);
        }
        let o = &orders[i];
        let is_bid = o.order_type == OrderType::Bid;
        if o.effective_quantity > 0 && is_bid == bid_side {
            let ok = if bid_side {
                o.limit_price.ge(p)
            } else {
                o.limit_price.le(p)
            };
            if ok {
                total = total + o.effective_quantity;
            }
        }
        i = i + 1;
    }
    total
}

/// A prefix of the total is at most the total.
proof fn lemma_total_prefix(s: Seq<Order>, n: int)
    requires
        0 <= n <= s.len(),
    ensures
        sum_where(s, every(), n) <= total_effective(s),
    decreases s.len() - n,
{
    if n < s.len() {
        lemma_total_prefix(s, n + 1);
    }
}

/// The unused order that comes first in priority among those on one side
/// that trade at `p`, if any is left.
fn first_unused(orders: &Vec<Order>, bid_side: bool, p: &Dec, used: &Vec<bool>) -> (r: Option<
    usize,
>)
    requires
        clearable(orders@, None),
        p.wf(),
        used@.len() == orders@.len(),
    ensures
        match r {
            Some(b) => b < orders@.len() && !used@[b as int] && trades_at(
                orders@[b as int],
                bid_side,
                p.v(),
            ) && forall|j: int|
                0 <= j < orders@.len() && !#[trigger] used@[j] && trades_at(
                    orders@[j],
                    bid_side,
                    p.v(),
                ) && j != b ==> before(orders@, bid_side, b as int, j),
            None => forall|j: int|
                0 <= j < orders@.len() ==> #[trigger] used@[j] || !trades_at(
                    orders@[j],
                    bid_side,
                    p.v(),
                ),
        },
{
    let ghost s = orders@;
    let ghost pv = p.v();
    let n = orders.len();
    let mut best: Option<usize> = None;
    let mut i: usize = 0;
    while i < n
        invariant
            i <= n,
            n == s.len(),
            s == orders@,
            clearable(s, None),
            p.wf(),
            pv == p.v(),
            used@.len() == n,
            match best {
                Some(b) => b < i && !used@[b as int] && trades_at(s[b as int], bid_side, pv)
                    && forall|j: int|
                    0 <= j < i && !#[trigger] used@[j] && trades_at(s[j], bid_side, pv) && j != b
                        ==> before(s, bid_side, b as int, j),
                None => forall|j: int|
                    0 <= j < i ==> #[trigger] used@[j] || !trades_at(s[j], bid_side, pv),
            },
        decreases n - i,
    {
        let o = &orders[i];
        if !used[i] && o.effective_quantity > 0 && (o.order_type == OrderType::Bid) == bid_side {
            let ok = if bid_side {
                o.limit_price.ge(p)
            } else {
                o.limit_price.le(p)
            };
            if ok {
                match best {
                    None => {
                        best = Some(i);
                    },
                    Some(b) => {
                        let ob = &orders[b];
                        let better_price = if bid_side {
                            ob.limit_price.lt(&o.limit_price)
                        } else {
                            o.limit_price.lt(&ob.limit_price)
                        };
                        let prefer = better_price || (o.limit_price.eq_value(&ob.limit_price)
                            && o.timestamp < ob.timestamp);
                        if prefer {
                            best = Some(i);
                        }
                    },
                }
            }
        }
        i = i + 1;
    }
    best
}

/// Fill one side in priority order, recording each order's fill in `amounts`.
fn allocate_side(orders: &Vec<Order>, bid_side: bool, p: &Dec, vol: u64, amounts: &mut Vec<u64>)
    requires
        clearable(orders@, None),
        p.wf(),
        old(amounts)@.len() == orders@.len(),
        vol <= sum_where(orders@, at_price(orders@, bid_side, p.v()), orders@.len() as int),
    ensures
        final(amounts)@.len() == orders@.len(),
        forall|j: int|
            0 <= j < orders@.len() && ((orders@[j].order_type == OrderType::Bid) == bid_side)
                ==> #[trigger] final(amounts)@[j] == fill_amount(orders@, j, p.v(), vol as int),
        forall|j: int|
            0 <= j < orders@.len() && ((orders@[j].order_type == OrderType::Bid) != bid_side)
                ==> #[trigger] final(amounts)@[j] == old(amounts)@[j],
        side_filled(orders@, bid_side, p.v(), vol as int, orders@.len() as int) == vol,
{
    let ghost s = orders@;
    let ghost pv = p.v();
    let n = orders.len();
    let mut used: Vec<bool> = Vec::new();
    let mut k: usize = 0;
    while k < n
        invariant
            k <= n,
            n == s.len(),
            used@.len() == k,
            forall|j: int| 0 <= j < k ==> !used@[j],
        decreases n - k,
    {
        used.push(false);
        k = k + 1;
    }
    // Orders not on this side keep their recorded fill; orders on this side
    // start at zero.
    let mut z: usize = 0;
    while z < n
        invariant
            z <= n,
            n == s.len(),
            s == orders@,
            amounts@.len() == n,
            forall|j: int|
                0 <= j < z && ((s[j].order_type == OrderType::Bid) == bid_side)
                    ==> #[trigger] amounts@[j] == 0,
            forall|j: int|
                0 <= j < n && ((s[j].order_type == OrderType::Bid) != bid_side)
                    ==> #[trigger] amounts@[j] == old(amounts)@[j],
            forall|j: int| z <= j < n ==> #[trigger] amounts@[j] == old(amounts)@[j],
        decreases n - z,
    {
        if (orders[z].order_type == OrderType::Bid) == bid_side {
            amounts.set(z, 0);
        }
        z = z + 1;
    }
    proof {
        lemma_sum_where_ext(s, marked(used@), |j: int| false, n as int);
        lemma_sum_where_zero(s, n as int);
        lemma_side_sum_zero(s, amounts@, marked(used@), n as int);
        lemma_count_true_ext(used@, Seq::new(n as nat, |j: int| false), n as int);
        lemma_count_true_none(Seq::new(n as nat, |j: int| false), n as int);
    }
    let mut filled: u64 = 0;
    let ghost mut count: int = 0;
    loop
        invariant
            n == s.len(),
            s == orders@,
            clearable(s, None),
            p.wf(),
            pv == p.v(),
            used@.len() == n,
            amounts@.len() == n,
            vol <= sum_where(s, at_price(s, bid_side, pv), n as int),
            forall|j: int| 0 <= j < n && #[trigger] used@[j] ==> trades_at(s[j], bid_side, pv),
            forall|j: int, m: int|
                0 <= j < n && 0 <= m < n && #[trigger] used@[j] && !#[trigger] used@[m]
                    && trades_at(s[m], bid_side, pv) ==> before(s, bid_side, j, m),
            filled <= vol,
            filled as int == (if sum_where(s, marked(used@), n as int) >= vol {
                vol as int
            } else {
                sum_where(s, marked(used@), n as int)
            }),
            filled as int == side_sum(s, amounts@, marked(used@), n as int),
            forall|j: int|
                0 <= j < n && #[trigger] used@[j] ==> amounts@[j] == fill_amount(
                    s,
                    j,
                    pv,
                    vol as int,
                ),
            forall|j: int|
                0 <= j < n && !#[trigger] used@[j] && ((s[j].order_type == OrderType::Bid)
                    == bid_side) ==> amounts@[j] == 0,
            forall|j: int|
                0 <= j < n && ((s[j].order_type == OrderType::Bid) != bid_side)
                    ==> #[trigger] amounts@[j] == old(amounts)@[j],
            0 <= count <= n,
            count == count_true(used@, n as int),
        ensures
            used@.len() == n,
            amounts@.len() == n,
            forall|j: int| 0 <= j < n && #[trigger] used@[j] ==> trades_at(s[j], bid_side, pv),
            forall|j: int|
                0 <= j < n ==> #[trigger] used@[j] || !trades_at(s[j], bid_side, pv),
            filled as int == (if sum_where(s, marked(used@), n as int) >= vol {
                vol as int
            } else {
                sum_where(s, marked(used@), n as int)
            }),
            filled as int == side_sum(s, amounts@, marked(used@), n as int),
            forall|j: int|
                0 <= j < n && #[trigger] used@[j] ==> amounts@[j] == fill_amount(
                    s,
                    j,
                    pv,
                    vol as int,
                ),
            forall|j: int|
                0 <= j < n && ((s[j].order_type == OrderType::Bid) != bid_side)
                    ==> #[trigger] amounts@[j] == old(amounts)@[j],
            forall|j: int|
                0 <= j < n && !#[trigger] used@[j] && ((s[j].order_type == OrderType::Bid)
                    == bid_side) ==> amounts@[j] == 0,
        decreases n - count,
    {
        let best = first_unused(orders, bid_side, p, &used);
        match best {
            None => {
                break ;
            },
            Some(b) => {
                let ghost old_used = used@;
                let ghost old_amounts = amounts@;
                proof {
                    // The orders ahead of `b` are exactly those already used.
                    assert forall|j: int| 0 <= j < n implies (#[trigger] marked(old_used)(j)
                        <==> ahead_of(s, bid_side, pv, b as int)(j)) by {
                        if ahead_of(s, bid_side, pv, b as int)(j) && !old_used[j] {
                            assert(before(s, bid_side, b as int, j));
                        }
                    }
                    lemma_sum_where_ext(
                        s,
                        marked(old_used),
                        ahead_of(s, bid_side, pv, b as int),
                        n as int,
                    );
                }
                let q = orders[b].effective_quantity;
                let left = vol - filled;
                let amt = if q <= left {
                    q
                } else {
                    left
                };
                filled = filled + amt;
                used.set(b, true);
                amounts.set(b, amt);
                proof {
                    lemma_sum_where_add_one(s, marked(old_used), marked(used@), b as int, n as int);
                    lemma_side_sum_add_one(
                        s,
                        old_amounts,
                        amounts@,
                        marked(old_used),
                        marked(used@),
                        b as int,
                        n as int,
                    );
                    lemma_count_true_set(old_used, used@, b as int, n as int);
                    count = count + 1;
                    assert forall|j: int, m: int|
                        0 <= j < n && 0 <= m < n && #[trigger] used@[j] && !#[trigger] used@[m]
                            && trades_at(s[m], bid_side, pv) implies before(s, bid_side, j, m) by {
                        if j != b {
                            assert(old_used[j]);
                        }
                    }
                }
            },
        }
    }
    proof {
        lemma_sum_where_ext(s, marked(used@), at_price(s, bid_side, pv), n as int);
        lemma_side_filled(s, bid_side, pv, vol as int, amounts@, marked(used@), n as int);
        assert forall|j: int|
            0 <= j < n && ((s[j].order_type == OrderType::Bid) == bid_side) implies #[trigger] amounts@[j]
            == fill_amount(s, j, pv, vol as int) by {
            if !used@[j] {
                assert(!trades_at(s[j], bid_side, pv));
            }
        }
    }
}

proof fn lemma_sum_where_zero(s: Seq<Order>, n: int)
    ensures
        sum_where(s, |j: int| false, n) == 0,
    decreases n,
{
    if n > 0 {
        lemma_sum_where_zero(s, n - 1);
    }
}

proof fn lemma_side_sum_zero(s: Seq<Order>, amounts: Seq<u64>, pred: spec_fn(int) -> bool, n: int)
    requires
        forall|j: int| #![trigger pred(j)] 0 <= j < n ==> !pred(j),
    ensures
        side_sum(s, amounts, pred, n) == 0,
    decreases n,
{
    if n > 0 {
        lemma_side_sum_zero(s, amounts, pred, n - 1);
    }
}

proof fn lemma_count_true_none(b: Seq<bool>, n: int)
    requires
        forall|j: int| #![trigger b[j]] 0 <= j < n ==> !b[j],
    ensures
        count_true(b, n) == 0,
    decreases n,
{
    if n > 0 {
        lemma_count_true_none(b, n - 1);
    }
}

/// The sum of `amounts` over the first `n` indices that satisfy `pred`.
pub open spec fn side_sum(s: Seq<Order>, amounts: Seq<u64>, pred: spec_fn(int) -> bool, n: int) -> int
    decreases n,
{
    if n <= 0 {
        0
    } else {
        side_sum(s, amounts, pred, n - 1) + if pred(n - 1) {
            amounts[n - 1] as int
        } else {
            0
        }
    }
}

/// The number of `true` entries among the first `n`.
pub open spec fn count_true(b: Seq<bool>, n: int) -> int
    decreases n,
{
    if n <= 0 {
        0
    } else {
        count_true(b, n - 1) + if b[n - 1] {
            1int
        } else {
            0
        }
    }
}

proof fn lemma_count_true_set(b1: Seq<bool>, b2: Seq<bool>, k: int, n: int)
    requires
        0 <= k < n,
        n <= b1.len(),
        b1.len() == b2.len(),
        !b1[k],
        b2[k],
        forall|j: int| #![trigger b1[j]] #![trigger b2[j]] 0 <= j < n && j != k ==> b1[j] == b2[j],
    ensures
        count_true(b2, n) == count_true(b1, n) + 1,
        count_true(b2, n) <= n,
    decreases n,
{
    lemma_count_true_le(b2, n);
    if n - 1 == k {
        lemma_count_true_ext(b1, b2, n - 1);
    } else {
        lemma_count_true_set(b1, b2, k, n - 1);
    }
}

proof fn lemma_count_true_le(b: Seq<bool>, n: int)
    ensures
        count_true(b, n) <= if n < 0 {
            0
        } else {
            n
        },
        count_true(b, n) >= 0,
    decreases n,
{
    if n > 0 {
        lemma_count_true_le(b, n - 1);
    }
}

proof fn lemma_count_true_ext(b1: Seq<bool>, b2: Seq<bool>, n: int)
    requires
        forall|j: int| #![trigger b1[j]] #![trigger b2[j]] 0 <= j < n ==> b1[j] == b2[j],
    ensures
        count_true(b1, n) == count_true(b2, n),
    decreases n,
{
    if n > 0 {
        lemma_count_true_ext(b1, b2, n - 1);
    }
}

proof fn lemma_side_sum_add_one(
    s: Seq<Order>,
    a1: Seq<u64>,
    a2: Seq<u64>,
    p1: spec_fn(int) -> bool,
    p2: spec_fn(int) -> bool,
    k: int,
    n: int,
)
    requires
        0 <= k < n,
        n <= a1.len(),
        a1.len() == a2.len(),
        !p1(k),
        p2(k),
        forall|j: int| #![trigger p1(j)] #![trigger p2(j)] 0 <= j < n && j != k ==> (p1(j) <==> p2(j)),
        forall|j: int| #![trigger a1[j]] #![trigger a2[j]] 0 <= j < n && j != k ==> a1[j] == a2[j],
    ensures
        side_sum(s, a2, p2, n) == side_sum(s, a1, p1, n) + a2[k],
    decreases n,
{
    if n - 1 == k {
        lemma_side_sum_ext(s, a1, a2, p1, p2, n - 1);
    } else {
        lemma_side_sum_add_one(s, a1, a2, p1, p2, k, n - 1);
    }
}

proof fn lemma_side_sum_ext(
    s: Seq<Order>,
    a1: Seq<u64>,
    a2: Seq<u64>,
    p1: spec_fn(int) -> bool,
    p2: spec_fn(int) -> bool,
    n: int,
)
    requires
        forall|j: int| #![trigger p1(j)] #![trigger p2(j)] 0 <= j < n ==> (p1(j) <==> p2(j)),
        forall|j: int| #![trigger a1[j]] #![trigger a2[j]] 0 <= j < n && p1(j) ==> a1[j] == a2[j],
    ensures
        side_sum(s, a1, p1, n) == side_sum(s, a2, p2, n),
    decreases n,
{
    if n > 0 {
        lemma_side_sum_ext(s, a1, a2, p1, p2, n - 1);
    }
}

/// Once every eligible order on a side has been used, the recorded amounts
/// add up to the side's total fill.
proof fn lemma_side_filled(
    s: Seq<Order>,
    bid_side: bool,
    pv: int,
    vol: int,
    amounts: Seq<u64>,
    used: spec_fn(int) -> bool,
    n: int,
)
    requires
        0 <= n <= s.len(),
        amounts.len() == s.len(),
        forall|j: int| 0 <= j < s.len() && #[trigger] used(j) ==> trades_at(s[j], bid_side, pv),
        forall|j: int|
            0 <= j < s.len() && ((s[j].order_type == OrderType::Bid) == bid_side) ==> (used(j)
                ==> #[trigger] amounts[j] == fill_amount(s, j, pv, vol)),
        forall|j: int|
            0 <= j < s.len() && ((s[j].order_type == OrderType::Bid) == bid_side) && !used(j)
                ==> fill_amount(s, j, pv, vol) == 0,
    ensures
        side_filled(s, bid_side, pv, vol, n) == side_sum(s, amounts, used, n),
    decreases n,
{
    if n > 0 {
        lemma_side_filled(s, bid_side, pv, vol, amounts, used, n - 1);
    }
}

// ---------------------------------------------------------------------------
// The clearing of one resource.
// ---------------------------------------------------------------------------
/// `p` is a price at which the resource may clear: the limit price of a live
/// order, at which a positive volume trades, and to which no live order's
/// limit price is preferred.
pub open spec fn optimal_price(s: Seq<Order>, last: Option<Dec>, p: Dec) -> bool {
    &&& exists|k: int| 0 <= k < s.len() && live(s[k]) && s[k].limit_price == p
    &&& volume(s, p.v()) > 0
    &&& forall|j: int| 0 <= j < s.len() && live(s[j]) ==> !better(s, last, s[j].limit_price, p)
}

/// No live order's limit price trades a positive volume.
pub open spec fn no_trade(s: Seq<Order>) -> bool {
    forall|j: int| 0 <= j < s.len() && live(s[j]) ==> volume(s, s[j].limit_price.v()) == 0
}

/// `c` is the clearing of the orders `s`.
pub open spec fn is_clearing(s: Seq<Order>, last: Option<Dec>, c: ResourceClearing) -> bool {
    &&& optimal_price(s, last, c.clearing_price)
    &&& c.matched_volume == volume(s, c.clearing_price.v())
    &&& c.tentative_fills@ == fill_list(
        s,
        c.clearing_price.v(),
        c.matched_volume as int,
        s.len() as int,
    )
}

/// Some order in `map` has the id.
pub open spec fn has_order(map: Seq<Order>, id: OrderId) -> bool {
    exists|i: int| 0 <= i < map.len() && map[i].id == id
}

/// At clearing price `p`, some order of `s` fills and its id is not in `map`.
pub open spec fn fill_missing_from(s: Seq<Order>, p: Dec, map: Seq<Order>) -> bool {
    exists|i: int|
        0 <= i < s.len() && fill_amount(s, i, p.v(), volume(s, p.v())) > 0 && !has_order(
            map,
            s[i].id,
        )
}

proof fn lemma_better_transitive(s: Seq<Order>, last: Option<Dec>, a: Dec, b: Dec, c: Dec)
    requires
        better(s, last, a, b),
        better(s, last, b, c),
    ensures
        better(s, last, a, c),
{
}

/// The position in `map` of an order with the id, if there is one.
pub fn find_order(map: &Vec<Order>, id: OrderId) -> (r: Option<usize>)
    ensures
        match r {
            Some(i) => i < map@.len() && map@[i as int].id == id && forall|k: int|
                0 <= k < i ==> (#[trigger] map@[k]).id != id,
            None => !has_order(map@, id),
        },
{
    let mut i: usize = 0;
    while i < map.len()
        invariant
            i <= map@.len(),
            forall|j: int| 0 <= j < i ==> map@[j].id != id,
        decreases map@.len() - i,
    {
        if map[i].id == id {
            return Some(i);
        }
        i = i + 1;
    }
    None
}

/// Whether price `pk` with volume `vk` is preferred to price `pb` with volume
/// `vb`.
fn prefers(vk: u64, pk: &Dec, vb: u64, pb: &Dec, last: &Option<Dec>) -> (r: bool)
    requires
        price_ok(*pk),
        price_ok(*pb),
        match *last {
            Some(l) => price_ok(l),
            None => true,
        },
    ensures
        r == (vk > vb || (vk == vb && match *last {
            Some(l) => distance(*pk, l) < distance(*pb, l) || (distance(*pk, l) == distance(
                *pb,
                l,
            ) && pk.v() > pb.v()),
            None => pk.v() > pb.v(),
        })),
{
    if vk > vb {
        return true;
    }
    if vk < vb {
        return false;
    }
    match last {
        Some(l) => {
            let dk = dec_sub(*pk, *l).abs();
            let db = dec_sub(*pb, *l).abs();
            dk.lt(&db) || (dk.eq_value(&db) && pb.lt(pk))
        },
        None => pb.lt(pk),
    }
}

/// Finds the clearing price, the volume and the fills of one resource.
///
/// The clearing price is the limit price of a live order that trades the
/// largest volume; among equal volumes the price nearest the last clearing
/// price wins, and then the highest. Bids and asks that trade at that price
/// share the volume in price-time priority. Returns `Ok(None)` when no volume
/// trades, and an error when a filled order is missing from `order_map`.
pub fn find_clearing_for_resource(
    orders: &Vec<Order>,
    last_price: Option<Dec>,
    order_map: &Vec<Order>,
) -> (r: Result<Option<ResourceClearing>, String>)
    requires
        clearable(orders@, last_price),
    ensures
        no_trade(orders@) ==> r matches Ok(None),
        !no_trade(orders@) ==> match r {
            Ok(Some(c)) => is_clearing(orders@, last_price, c) && forall|i: int|
                0 <= i < c.tentative_fills@.len() ==> has_order(
                    order_map@,
                    #[trigger] c.tentative_fills@[i].order_id,
                ),
            Ok(None) => false,
            Err(_) => exists|p: Dec|
                optimal_price(orders@, last_price, p) && fill_missing_from(orders@, p, order_map@),
        },
        r matches Ok(Some(c)) ==> side_filled(
            orders@,
            true,
            c.clearing_price.v(),
            c.matched_volume as int,
            orders@.len() as int,
        ) == c.matched_volume && side_filled(
            orders@,
            false,
            c.clearing_price.v(),
            c.matched_volume as int,
            orders@.len() as int,
        ) == c.matched_volume,
{
    let ghost s = orders@;
    let n = orders.len();
    proof {
        assert(clearable(s, None));
    }
    // --- The clearing price ---
    let mut best: Option<usize> = None;
    let mut best_vol: u64 = 0;
    let mut k: usize = 0;
    while k < n
        invariant
            k <= n,
            n == s.len(),
            s == orders@,
            clearable(s, last_price),
            clearable(s, None),
            match best {
                Some(b) => b < k && live(s[b as int]) && best_vol == volume(
                    s,
                    s[b as int].limit_price.v(),
                ) && best_vol > 0 && forall|j: int|
                    0 <= j < k && live(s[j]) ==> !better(
                        s,
                        last_price,
                        #[trigger] s[j].limit_price,
                        s[b as int].limit_price,
                    ),
                None => forall|j: int|
                    0 <= j < k && live(s[j]) ==> volume(s, #[trigger] s[j].limit_price.v()) == 0,
            },
        decreases n - k,
    {
        if orders[k].effective_quantity > 0 {
            let p = orders[k].limit_price;
            let d = quantity_at(orders, true, &p);
            let q = quantity_at(orders, false, &p);
            let vol = if d <= q {
                d
            } else {
                q
            };
            if vol > 0 {
                match best {
                    None => {
                        best = Some(k);
                        best_vol = vol;
                    },
                    Some(b) => {
                        let pb = orders[b].limit_price;
                        if prefers(vol, &p, best_vol, &pb, &last_price) {
                            proof {
                                assert forall|j: int|
                                    0 <= j < k + 1 && live(s[j]) implies !better(
                                    s,
                                    last_price,
                                    #[trigger] s[j].limit_price,
                                    p,
                                ) by {
                                    if j < k && better(s, last_price, s[j].limit_price, p) {
                                        lemma_better_transitive(
                                            s,
                                            last_price,
                                            s[j].limit_price,
                                            p,
                                            pb,
                                        );
                                    }
                                }
                            }
                            best = Some(k);
                            best_vol = vol;
                        }
                    },
                }
            }
        }
        k = k + 1;
    }
    let b = match best {
        None => {
            return Ok(None);
        },
        Some(b) => b,
    };
    let price = orders[b].limit_price;
    let vol = best_vol;
    proof {
        assert(live(s[b as int]) && s[b as int].limit_price == price);
        assert(optimal_price(s, last_price, price));
    }
    // --- The fills ---
    let mut amounts: Vec<u64> = Vec::new();
    let mut z: usize = 0;
    while z < n
        invariant
            z <= n,
            amounts@.len() == z,
        decreases n - z,
    {
        amounts.push(0);
        z = z + 1;
    }
    allocate_side(orders, true, &price, vol, &mut amounts);
    let ghost bid_amounts = amounts@;
    allocate_side(orders, false, &price, vol, &mut amounts);
    let mut fills: Vec<TentativeFill> = Vec::new();
    let mut i: usize = 0;
    while i < n
        invariant
            i <= n,
            n == s.len(),
            s == orders@,
            amounts@.len() == n,
            forall|j: int|
                0 <= j < n ==> #[trigger] amounts@[j] == fill_amount(s, j, price.v(), vol as int),
            fills@ == fill_list(s, price.v(), vol as int, i as int),
            optimal_price(s, last_price, price),
            vol == volume(s, price.v()),
            forall|j: int|
                0 <= j < fills@.len() ==> has_order(order_map@, #[trigger] fills@[j].order_id),
        decreases n - i,
    {
        if amounts[i] > 0 {
            match find_order(order_map, orders[i].id) {
                None => {
                    proof {
                        assert(fill_amount(s, i as int, price.v(), volume(s, price.v())) > 0);
                        assert(fill_missing_from(s, price, order_map@));
                    }
                    return Err(String::from_str("Order not found in map during fill creation"));
                },
                Some(_) => {
                    fills.push(TentativeFill { order_id: orders[i].id, filled_quantity: amounts[i] });
                },
            }
        }
        i = i + 1;
    }
    Ok(Some(ResourceClearing { clearing_price: price, matched_volume: vol, tentative_fills: fills }))
}

// ---------------------------------------------------------------------------
// The auction over all resources.
// ---------------------------------------------------------------------------
/// A fill of the final round, with the order's details.
#[derive(Debug)]
pub struct FinalFill {
    pub order_id: OrderId,
    pub participant_id: ParticipantId,
    pub resource_id: ResourceId,
    pub order_type: OrderType,
    pub filled_quantity: u64,
    pub price: Dec,
}

/// A participant's currency after settlement.
#[derive(Debug, Clone, Copy)]
pub struct FinalBalance {
    pub participant_id: ParticipantId,
    pub final_currency: Dec,
}

#[derive(Debug)]
pub struct AuctionSuccess {
    pub final_fills: Vec<FinalFill>,
    pub final_balances: Vec<FinalBalance>,
    /// The clearing price of each resource that traded.
    pub clearing_prices: Vec<(ResourceId, Dec)>,
}

impl AuctionSuccess {
    /// The clearing price of a resource, if it traded.
    pub fn clearing_price(&self, resource: &ResourceId) -> (r: Option<Dec>)
        ensures
            r is Some <==> exists|i: int|
                0 <= i < self.clearing_prices@.len() && (#[trigger] self.clearing_prices@[i]).0.0@
                    == resource.0@,
            r matches Some(p) ==> exists|i: int|
                0 <= i < self.clearing_prices@.len() && (#[trigger] self.clearing_prices@[i]).0.0@
                    == resource.0@ && self.clearing_prices@[i].1 == p,
    {
        last_price_for(&self.clearing_prices, resource)
    }
}

#[derive(Debug)]
pub enum AuctionError {
    MaxIterationsReached,
    InternalError(String),
}

/// The message of an auction error.
pub open spec fn error_message(e: AuctionError) -> Seq<char> {
    match e {
        AuctionError::MaxIterationsReached => "Maximum iterations reached"@,
        AuctionError::InternalError(msg) => "Internal error: "@ + msg@,
    }
}

impl AuctionError {
    /// The error's message.
    pub fn message(&self) -> (r: String)
        ensures
            r@ == error_message(*self),
    {
        match self {
            AuctionError::MaxIterationsReached => String::from_str("Maximum iterations reached"),
            AuctionError::InternalError(msg) => String::from_str("Internal error: ").concat(
                msg.as_str(),
            ),
        }
    }
}

/// The value of a fill, in units of [`Dec::v`].
pub open spec fn fill_value(f: FinalFill) -> int {
    f.filled_quantity as int * f.price.v()
}

/// What the participant pays, net, for the first `n` fills: the value of its
/// bought quantities less the value of its sold quantities.
pub open spec fn net_outflow(fills: Seq<FinalFill>, id: ParticipantId, n: int) -> int
    decreases n,
{
    if n <= 0 {
        0
    } else {
        net_outflow(fills, id, n - 1) + if fills[n - 1].participant_id == id {
            if fills[n - 1].order_type == OrderType::Bid {
                fill_value(fills[n - 1])
            } else {
                -fill_value(fills[n - 1])
            }
        } else {
            0
        }
    }
}

/// The value of the participant's bought quantities among the first `n` fills.
pub open spec fn purchase_cost(fills: Seq<FinalFill>, id: ParticipantId, n: int) -> int
    decreases n,
{
    if n <= 0 {
        0
    } else {
        purchase_cost(fills, id, n - 1) + if fills[n - 1].participant_id == id
            && fills[n - 1].order_type == OrderType::Bid {
            fill_value(fills[n - 1])
        } else {
            0
        }
    }
}

/// The participant has one of the first `n` fills.
pub open spec fn has_fill(fills: Seq<FinalFill>, id: ParticipantId, n: int) -> bool {
    exists|i: int| 0 <= i < n && i < fills.len() && (#[trigger] fills[i]).participant_id == id
}

/// The largest magnitude of the first `n` limit prices.
pub open spec fn max_abs_price(s: Seq<Order>, n: int) -> int
    decreases n,
{
    if n <= 0 {
        0
    } else {
        let m = max_abs_price(s, n - 1);
        let a = abs_int(s[n - 1].limit_price.v());
        if a > m {
            a
        } else {
            m
        }
    }
}

/// The most an order can cost its participant in a round: a bid, its
/// quantity at its limit price when that is positive; an ask, its quantity at
/// the opposite of its limit price when that is negative.
pub open spec fn worst_cost(o: Order) -> int {
    if o.order_type == OrderType::Bid {
        o.effective_quantity * (if o.limit_price.v() > 0 {
            o.limit_price.v()
        } else {
            0
        })
    } else {
        o.effective_quantity * (if o.limit_price.v() < 0 {
            -o.limit_price.v()
        } else {
            0
        })
    }
}

/// The worst costs of the participant's orders among the first `n`, leaving
/// out the positions in `skip`.
pub open spec fn exposure_in(orders: Seq<Order>, id: ParticipantId, skip: Set<int>, n: int) -> int
    decreases n,
{
    if n <= 0 {
        0
    } else {
        exposure_in(orders, id, skip, n - 1) + if !skip.contains(n - 1) && orders[n - 1].participant_id == id {
            worst_cost(orders[n - 1])
        } else {
            0
        }
    }
}

/// The most the participant's orders can cost it in a round.
pub open spec fn exposure(orders: Seq<Order>, id: ParticipantId) -> int {
    exposure_in(orders, id, Set::empty(), orders.len() as int)
}

/// Every participant's currency covers the most its orders can cost.
pub open spec fn covered(orders: Seq<Order>, participants: Seq<Participant>) -> bool {
    forall|k: int|
        0 <= k < participants.len() ==> exposure(orders, (#[trigger] participants[k]).id)
            <= participants[k].currency.v()
}

/// The fill is one of order `j`'s: same id, participant and side, a positive
/// quantity within the order's, and a price within its limit.
pub open spec fn fits(orders: Seq<Order>, f: FinalFill, j: int) -> bool {
    &&& 0 <= j < orders.len()
    &&& orders[j].id == f.order_id
    &&& orders[j].participant_id == f.participant_id
    &&& orders[j].order_type == f.order_type
    &&& 0 < f.filled_quantity <= orders[j].effective_quantity
    &&& (f.order_type == OrderType::Bid ==> f.price.v() <= orders[j].limit_price.v())
    &&& (f.order_type == OrderType::Ask ==> f.price.v() >= orders[j].limit_price.v())
}

proof fn lemma_exposure_nonneg(orders: Seq<Order>, id: ParticipantId, skip: Set<int>, n: int)
    requires
        n <= orders.len(),
    ensures
        exposure_in(orders, id, skip, n) >= 0,
    decreases n,
{
    if n > 0 {
        lemma_exposure_nonneg(orders, id, skip, n - 1);
        let o = orders[n - 1];
        let lp = o.limit_price.v();
        let e = o.effective_quantity as int;
        assert(worst_cost(o) >= 0) by (nonlinear_arith)
            requires
                e >= 0,
                worst_cost(o) == e * (if o.order_type == OrderType::Bid {
                    if lp > 0 {
                        lp
                    } else {
                        0
                    }
                } else {
                    if lp < 0 {
                        -lp
                    } else {
                        0
                    }
                }),
        ;
    }
}

/// Leaving order `j0` out too takes its worst cost away.
proof fn lemma_exposure_without(orders: Seq<Order>, id: ParticipantId, skip: Set<int>, j0: int, n: int)
    requires
        0 <= j0 < n <= orders.len(),
        !skip.contains(j0),
    ensures
        exposure_in(orders, id, skip, n) == exposure_in(orders, id, skip.insert(j0), n) + if orders[j0].participant_id
            == id {
            worst_cost(orders[j0])
        } else {
            0
        },
    decreases n,
{
    if n - 1 > j0 {
        lemma_exposure_without(orders, id, skip, j0, n - 1);
    } else {
        lemma_exposure_same(orders, id, skip, skip.insert(j0), n - 1);
    }
}

/// Two sets that agree below `n` leave out the same orders.
proof fn lemma_exposure_same(orders: Seq<Order>, id: ParticipantId, a: Set<int>, b: Set<int>, n: int)
    requires
        forall|j: int| 0 <= j < n ==> (a.contains(j) <==> b.contains(j)),
    ensures
        exposure_in(orders, id, a, n) == exposure_in(orders, id, b, n),
    decreases n,
{
    if n > 0 {
        lemma_exposure_same(orders, id, a, b, n - 1);
    }
}

/// A fill costs its participant no more than the worst cost of its order.
proof fn lemma_fill_within_worst(o: Order, f: FinalFill)
    requires
        o.order_type == f.order_type,
        0 < f.filled_quantity <= o.effective_quantity,
        f.order_type == OrderType::Bid ==> f.price.v() <= o.limit_price.v(),
        f.order_type == OrderType::Ask ==> f.price.v() >= o.limit_price.v(),
    ensures
        (if f.order_type == OrderType::Bid {
            fill_value(f)
        } else {
            -fill_value(f)
        }) <= worst_cost(o),
{
    let q = f.filled_quantity as int;
    let e = o.effective_quantity as int;
    let p = f.price.v();
    let l = o.limit_price.v();
    if f.order_type == OrderType::Bid {
        let m = if l > 0 {
            l
        } else {
            0
        };
        assert(q * p <= e * m) by (nonlinear_arith)
            requires
                0 < q <= e,
                p <= l,
                l <= m,
                m >= 0,
        ;
    } else {
        let m = if l < 0 {
            -l
        } else {
            0
        };
        assert(-(q * p) <= e * m) by (nonlinear_arith)
            requires
                0 < q <= e,
                p >= l,
                -l <= m,
                m >= 0,
        ;
    }
}

/// The fill is one of an order not left out.
spec fn witnessed(orders: Seq<Order>, f: FinalFill, skip: Set<int>) -> bool {
    exists|j: int| !skip.contains(j) && #[trigger] fits(orders, f, j)
}

/// Fills of distinct orders, none of them left out, cost a participant, net,
/// no more than the worst costs of those orders.
proof fn lemma_outflow_within(orders: Seq<Order>, fills: Seq<FinalFill>, id: ParticipantId, skip: Set<int>, n: int)
    requires
        0 <= n <= fills.len(),
        distinct_order_ids(orders),
        forall|i: int| 0 <= i < n ==> #[trigger] witnessed(orders, fills[i], skip),
        forall|a: int, b: int|
            0 <= a < n && 0 <= b < n && a != b ==> (#[trigger] fills[a]).order_id != (
            #[trigger] fills[b]).order_id,
    ensures
        net_outflow(fills, id, n) <= exposure_in(orders, id, skip, orders.len() as int),
    decreases n,
{
    if n == 0 {
        lemma_exposure_nonneg(orders, id, skip, orders.len() as int);
    } else {
        let f = fills[n - 1];
        assert(witnessed(orders, f, skip));
        let j0 = choose|j: int| !skip.contains(j) && #[trigger] fits(orders, f, j);
        let rest = skip.insert(j0);
        assert forall|i: int| 0 <= i < n - 1 implies #[trigger] witnessed(orders, fills[i], rest) by {
            assert(witnessed(orders, fills[i], skip));
            let ji = choose|j: int| !skip.contains(j) && #[trigger] fits(orders, fills[i], j);
            assert(fills[i].order_id != f.order_id);
            assert(ji != j0);
            assert(!rest.contains(ji));
            assert(fits(orders, fills[i], ji));
        }
        lemma_outflow_within(orders, fills, id, rest, n - 1);
        lemma_exposure_without(orders, id, skip, j0, orders.len() as int);
        lemma_fill_within_worst(orders[j0], f);
    }
}

/// A bound on the value of everything that can trade in one round.
pub open spec fn trade_bound(orders: Seq<Order>) -> int {
    orders.len() * orders.len() * total_effective(orders) * max_abs_price(
        orders,
        orders.len() as int,
    )
}

/// The prices and currencies have scale at most `sc`, and all the amounts of
/// currency the auction computes stay below the decimal type's overflow margin
/// at that scale, so that the currency arithmetic is exact.
pub open spec fn exact_at(orders: Seq<Order>, participants: Seq<Participant>, sc: nat) -> bool {
    &&& sc <= 28
    &&& forall|i: int| 0 <= i < orders.len() ==> (#[trigger] orders[i]).limit_price.scale <= sc
    &&& forall|i: int|
        0 <= i < participants.len() ==> (#[trigger] participants[i]).currency.wf()
            && participants[i].currency.scale <= sc && abs_int(participants[i].currency.v())
            + trade_bound(orders) <= (MAX_MANTISSA - 1) * pow10((28 - sc) as nat)
}

/// The amounts of currency can be computed exactly at some scale.
pub open spec fn exactly(orders: Seq<Order>, participants: Seq<Participant>) -> bool {
    exists|sc: nat| exact_at(orders, participants, sc)
}

/// How large the auction's sums of currency can get: up to `n * n` fills,
/// each worth at most the total quantity times the largest price, with room
/// for rounding.
pub open spec fn rounded_bound(orders: Seq<Order>) -> int {
    orders.len() * orders.len() * (total_effective(orders) * max_abs_price(orders, orders.len() as int)
        + 2 * unit())
}

/// Every participant's currency, together with the auction's largest sums,
/// stays within the decimal range.
pub open spec fn in_range(orders: Seq<Order>, participants: Seq<Participant>) -> bool {
    forall|i: int|
        0 <= i < participants.len() ==> (#[trigger] participants[i]).currency.wf() && abs_int(
            participants[i].currency.v(),
        ) + rounded_bound(orders) <= limit()
}

/// No two participants share an id.
pub open spec fn distinct_participants(p: Seq<Participant>) -> bool {
    forall|i: int, j: int| 0 <= i < p.len() && 0 <= j < p.len() && i != j ==> p[i].id != p[j].id
}

/// The inputs the auction accepts.
pub open spec fn auction_ready(
    orders: Seq<Order>,
    participants: Seq<Participant>,
    last: Seq<(ResourceId, Dec)>,
) -> bool {
    &&& distinct_order_ids(orders)
    &&& distinct_participants(participants)
    &&& forall|i: int| 0 <= i < orders.len() ==> price_ok(#[trigger] orders[i].limit_price)
    &&& forall|i: int| 0 <= i < last.len() ==> price_ok(#[trigger] last[i].1)
    &&& total_effective(orders) <= u64::MAX
    &&& in_range(orders, participants)
}

proof fn lemma_max_le(s: Seq<Order>, n: int, b: int)
    requires
        0 <= n <= s.len(),
        b >= 0,
        forall|k: int| 0 <= k < n ==> abs_int(#[trigger] s[k].limit_price.v()) <= b,
    ensures
        max_abs_price(s, n) <= b,
    decreases n,
{
    if n > 0 {
        lemma_max_le(s, n - 1, b);
    }
}

/// A sum over a prefix is at most the sum over a longer prefix.
proof fn lemma_sum_where_prefix(s: Seq<Order>, pred: spec_fn(int) -> bool, m: int, n: int)
    requires
        0 <= m <= n,
    ensures
        sum_where(s, pred, m) <= sum_where(s, pred, n),
    decreases n - m,
{
    if m < n {
        lemma_sum_where_prefix(s, pred, m, n - 1);
    }
}

/// The bounds that [`auction_ready_check`] tests: distinct order and
/// participant ids, at most a thousand orders for at most a billion units in
/// all, prices well formed and at most a trillion, budgets well formed and at
/// most `10^22`, and last prices well formed and within half the decimal
/// range.
pub open spec fn ready_checked(
    orders: Seq<Order>,
    participants: Seq<Participant>,
    last: Seq<(ResourceId, Dec)>,
) -> bool {
    &&& orders.len() <= 1000
    &&& forall|k: int|
        0 <= k < orders.len() ==> (#[trigger] orders[k]).limit_price.wf() && abs_int(
            orders[k].limit_price.v(),
        ) <= 1000000000000 * unit()
    &&& total_effective(orders) <= 1000000000
    &&& distinct_order_ids(orders)
    &&& forall|k: int|
        0 <= k < participants.len() ==> (#[trigger] participants[k]).currency.wf() && abs_int(
            participants[k].currency.v(),
        ) <= 10000000000000000000000 * unit()
    &&& distinct_participants(participants)
    &&& forall|k: int| 0 <= k < last.len() ==> price_ok(#[trigger] last[k].1)
}

/// Tests the bounds of [`ready_checked`], which suffice for
/// [`auction_ready`].
pub fn auction_ready_check(
    orders: &Vec<Order>,
    participants: &Vec<Participant>,
    last: &Vec<(ResourceId, Dec)>,
) -> (r: bool)
    ensures
        r == ready_checked(orders@, participants@, last@),
        r ==> auction_ready(orders@, participants@, last@),
{
    proof {
        lemma_unit();
    }
    let n = orders.len();
    if n > 1000 {
        return false;
    }
    let mut total: u64 = 0;
    let mut i: usize = 0;
    while i < n
        invariant
            n == orders@.len(),
            n <= 1000,
            i <= n,
            total == sum_where(orders@, every(), i as int),
            total <= 1000000000,
            forall|k: int|
                0 <= k < i ==> (#[trigger] orders@[k]).limit_price.wf() && abs_int(
                    orders@[k].limit_price.v(),
                ) <= 1000000000000 * unit(),
        decreases n - i,
    {
        let o = &orders[i];
        if !o.limit_price.is_wf() || !o.limit_price.within_units(1000000000000) {
            proof {
                assert(!ready_checked(orders@, participants@, last@)) by {
                    assert(orders@[i as int] == *o);
                }
            }
            return false;
        }
        if o.effective_quantity > 1000000000 - total {
            proof {
                assert(orders@[i as int] == *o);
                assert(sum_where(orders@, every(), i + 1) > 1000000000);
                lemma_sum_where_prefix(orders@, every(), i + 1, n as int);
            }
            return false;
        }
        total = total + o.effective_quantity;
        i = i + 1;
    }
    let mut a: usize = 0;
    while a < n
        invariant
            n == orders@.len(),
            a <= n,
            forall|x: int, y: int|
                0 <= x < a && 0 <= y < n && x != y ==> orders@[x].id != orders@[y].id,
        decreases n - a,
    {
        let mut b: usize = 0;
        while b < n
            invariant
                n == orders@.len(),
                a < n,
                b <= n,
                forall|x: int, y: int|
                    0 <= x < a && 0 <= y < n && x != y ==> orders@[x].id != orders@[y].id,
                forall|y: int| 0 <= y < b && a != y ==> orders@[a as int].id != orders@[y].id,
            decreases n - b,
        {
            if a != b && orders[a].id == orders[b].id {
                return false;
            }
            b = b + 1;
        }
        a = a + 1;
    }
    let m = participants.len();
    let budget = Dec { mantissa: 10000000000000000000000, scale: 0 };
    let mut c: usize = 0;
    while c < m
        invariant
            m == participants@.len(),
            c <= m,
            budget.v() == 10000000000000000000000 * unit(),
            budget.wf(),
            forall|k: int|
                0 <= k < c ==> (#[trigger] participants@[k]).currency.wf() && abs_int(
                    participants@[k].currency.v(),
                ) <= 10000000000000000000000 * unit(),
            forall|x: int, y: int|
                0 <= x < c && 0 <= y < m && x != y ==> participants@[x].id != participants@[y].id,
        decreases m - c,
    {
        let cur = participants[c].currency;
        if !cur.is_wf() || !cur.abs().le(&budget) {
            return false;
        }
        let mut d: usize = 0;
        while d < m
            invariant
                m == participants@.len(),
                c < m,
                d <= m,
                forall|y: int| 0 <= y < d && c != y ==> participants@[c as int].id != participants@[y].id,
            decreases m - d,
        {
            if c != d && participants[c].id == participants[d].id {
                return false;
            }
            d = d + 1;
        }
        c = c + 1;
    }
    let half = Dec { mantissa: 39614081257132168796771975167, scale: 0 };
    let mut l: usize = 0;
    while l < last.len()
        invariant
            l <= last@.len(),
            half.wf(),
            half.v() == limit() / 2,
            forall|k: int| 0 <= k < l ==> price_ok(#[trigger] last@[k].1),
        decreases last@.len() - l,
    {
        let p = last[l].1;
        if !p.is_wf() || !p.abs().le(&half) {
            return false;
        }
        l = l + 1;
    }
    proof {
        let s = orders@;
        let q = total_effective(s);
        let pb = max_abs_price(s, s.len() as int);
        assert(q == total as int);
        lemma_max_le(s, s.len() as int, 1000000000000 * unit());
        lemma_max_nonneg(s, s.len() as int);
        assert(rounded_bound(s) <= 1000000 * (1000000000000000000000 * unit() + 2 * unit()))
            by (nonlinear_arith)
            requires
                rounded_bound(s) == s.len() * s.len() * (q * pb + 2 * unit()),
                0 <= s.len() <= 1000,
                0 <= q <= 1000000000,
                0 <= pb <= 1000000000000 * unit(),
                unit() > 0,
        ;
        assert forall|k: int| 0 <= k < s.len() implies price_ok(#[trigger] s[k].limit_price) by {}
        assert(in_range(s, participants@));
    }
    true
}

/// `cur` is `orders` with some effective quantities lowered.
pub open spec fn pruned_from(orders: Seq<Order>, cur: Seq<Order>) -> bool {
    &&& cur.len() == orders.len()
    &&& forall|j: int|
        0 <= j < cur.len() ==> {
            let a = #[trigger] cur[j];
            let b = orders[j];
            &&& a.id == b.id
            &&& a.participant_id == b.participant_id
            &&& a.resource_id == b.resource_id
            &&& a.order_type == b.order_type
            &&& a.original_quantity == b.original_quantity
            &&& a.limit_price == b.limit_price
            &&& a.timestamp == b.timestamp
            &&& a.effective_quantity <= b.effective_quantity
        }
}

/// The fill `f` belongs to an order of `orders`: same id, participant,
/// resource and side, a positive quantity no larger than the order's effective
/// quantity, and a price within the order's limit.
pub open spec fn fill_of_order(orders: Seq<Order>, f: FinalFill) -> bool {
    exists|j: int|
        0 <= j < orders.len() && {
            let o = #[trigger] orders[j];
            &&& o.id == f.order_id
            &&& o.participant_id == f.participant_id
            &&& o.resource_id.0@ == f.resource_id.0@
            &&& o.order_type == f.order_type
            &&& 0 < f.filled_quantity <= o.effective_quantity
            &&& (o.order_type == OrderType::Bid ==> f.price.v() <= o.limit_price.v())
            &&& (o.order_type == OrderType::Ask ==> f.price.v() >= o.limit_price.v())
        }
}

/// A tentative fill of the clearing of resource `r` at `price` belongs to a
/// live order of `cur` of that resource.
pub open spec fn tentative_of(cur: Seq<Order>, r: ResourceId, price: Dec, t: TentativeFill) -> bool {
    exists|j: int|
        0 <= j < cur.len() && {
            let o = #[trigger] cur[j];
            &&& o.id == t.order_id
            &&& o.resource_id.0@ == r.0@
            &&& 0 < t.filled_quantity <= o.effective_quantity
            &&& (o.order_type == OrderType::Bid ==> price.v() <= o.limit_price.v())
            &&& (o.order_type == OrderType::Ask ==> price.v() >= o.limit_price.v())
        }
}

/// The clearings of one round: distinct resources, prices among the orders'
/// limit prices, and fills that belong to the orders.
pub open spec fn clearings_ok(
    cur: Seq<Order>,
    clearings: Seq<(ResourceId, ResourceClearing)>,
) -> bool {
    &&& forall|c: int|
        0 <= c < clearings.len() ==> exists|j: int|
            0 <= j < cur.len() && (#[trigger] cur[j]).limit_price == (
            #[trigger] clearings[c]).1.clearing_price
    &&& forall|c: int, t: int|
        0 <= c < clearings.len() && 0 <= t < clearings[c].1.tentative_fills@.len()
            ==> tentative_of(
            cur,
            clearings[c].0,
            clearings[c].1.clearing_price,
            #[trigger] clearings[c].1.tentative_fills@[t],
        )
    &&& forall|c: int| 0 <= c < clearings.len() ==> (#[trigger] clearings[c]).1.tentative_fills@.len() <= cur.len()
    &&& clearings.len() <= cur.len()
    &&& forall|c: int, a: int, b: int|
        0 <= c < clearings.len() && 0 <= a < clearings[c].1.tentative_fills@.len() && 0 <= b
            < clearings[c].1.tentative_fills@.len() && a != b ==> (#[trigger] clearings[c].1.tentative_fills@[a]).order_id
            != (#[trigger] clearings[c].1.tentative_fills@[b]).order_id
    &&& forall|c1: int, c2: int|
        0 <= c1 < clearings.len() && 0 <= c2 < clearings.len() && c1 != c2 ==> (
        #[trigger] clearings[c1]).0.0@ != (#[trigger] clearings[c2]).0.0@
}

/// The fill's price and resource are those of one of the clearings.
pub open spec fn from_clearing(clearings: Seq<(ResourceId, ResourceClearing)>, f: FinalFill) -> bool {
    exists|c: int|
        0 <= c < clearings.len() && f.price == (#[trigger] clearings[c]).1.clearing_price
            && f.resource_id.0@ == clearings[c].0.0@
}

/// The price of the first entry from position `i` on whose resource is
/// named `name`, if any.
pub open spec fn first_price(prices: Seq<(ResourceId, Dec)>, name: Seq<char>, i: int) -> Option<Dec>
    decreases prices.len() - i,
{
    if i < 0 || i >= prices.len() {
        None
    } else if prices[i].0.0@ == name {
        Some(prices[i].1)
    } else {
        first_price(prices, name, i + 1)
    }
}

proof fn lemma_first_price_skip(prices: Seq<(ResourceId, Dec)>, name: Seq<char>, i: int)
    requires
        0 <= i <= prices.len(),
        forall|j: int| 0 <= j < i ==> (#[trigger] prices[j]).0.0@ != name,
    ensures
        first_price(prices, name, 0) == first_price(prices, name, i),
    decreases i,
{
    if i > 0 {
        lemma_first_price_skip(prices, name, i - 1);
    }
}

/// The first price recorded for the resource, if any.
fn last_price_for(prices: &Vec<(ResourceId, Dec)>, r: &ResourceId) -> (res: Option<Dec>)
    ensures
        res == first_price(prices@, r.0@, 0),
        res is Some <==> exists|i: int|
            0 <= i < prices@.len() && (#[trigger] prices@[i]).0.0@ == r.0@,
        res matches Some(p) ==> exists|i: int|
            0 <= i < prices@.len() && (#[trigger] prices@[i]).0.0@ == r.0@ && prices@[i].1 == p,
{
    let mut i: usize = 0;
    while i < prices.len()
        invariant
            i <= prices@.len(),
            forall|j: int| 0 <= j < i ==> (#[trigger] prices@[j]).0.0@ != r.0@,
        decreases prices@.len() - i,
    {
        if prices[i].0.same(r) {
            proof {
                lemma_first_price_skip(prices@, r.0@, i as int);
            }
            return Some(prices[i].1);
        }
        i = i + 1;
    }
    proof {
        lemma_first_price_skip(prices@, r.0@, i as int);
    }
    None
}

/// The names of the resources of the live orders among the first `n`, each
/// once, in order of first appearance.
pub open spec fn live_names(s: Seq<Order>, n: int) -> Seq<Seq<char>>
    decreases n,
{
    if n <= 0 {
        Seq::empty()
    } else {
        let prev = live_names(s, n - 1);
        if s[n - 1].effective_quantity > 0 && !prev.contains(s[n - 1].resource_id.0@) {
            prev.push(s[n - 1].resource_id.0@)
        } else {
            prev
        }
    }
}

/// The distinct resources of the live orders, in order of first appearance.
fn live_resources(cur: &Vec<Order>) -> (r: Vec<ResourceId>)
    ensures
        r@.len() == live_names(cur@, cur@.len() as int).len(),
        forall|a: int| 0 <= a < r@.len() ==> (#[trigger] r@[a]).0@ == live_names(cur@, cur@.len() as int)[a],
        r@.len() <= cur@.len(),
        forall|a: int, b: int|
            0 <= a < r@.len() && 0 <= b < r@.len() && a != b ==> (#[trigger] r@[a]).0@ != (
            #[trigger] r@[b]).0@,
{
    let mut res: Vec<ResourceId> = Vec::new();
    let mut i: usize = 0;
    while i < cur.len()
        invariant
            i <= cur@.len(),
            res@.len() <= i,
            forall|a: int, b: int|
                0 <= a < res@.len() && 0 <= b < res@.len() && a != b ==> (#[trigger] res@[a]).0@
                    != (#[trigger] res@[b]).0@,
            res@.len() == live_names(cur@, i as int).len(),
            forall|a: int| 0 <= a < res@.len() ==> (#[trigger] res@[a]).0@ == live_names(cur@, i as int)[a],
        decreases cur@.len() - i,
    {
        let ghost prev = live_names(cur@, i as int);
        if cur[i].effective_quantity > 0 {
            let mut found = false;
            let mut k: usize = 0;
            while k < res.len()
                invariant
                    i < cur@.len(),
                    k <= res@.len(),
                    found ==> exists|a: int| 0 <= a < res@.len() && (#[trigger] res@[a]).0@
                        == cur@[i as int].resource_id.0@,
                    !found ==> forall|a: int|
                        0 <= a < k ==> (#[trigger] res@[a]).0@ != cur@[i as int].resource_id.0@,
                decreases res@.len() - k,
            {
                if res[k].same(&cur[i].resource_id) {
                    found = true;
                }
                k = k + 1;
            }
            proof {
                let name = cur@[i as int].resource_id.0@;
                if found {
                    let a = choose|a: int| 0 <= a < res@.len() && (#[trigger] res@[a]).0@ == name;
                    assert(prev[a] == name);
                } else {
                    assert forall|a: int| 0 <= a < prev.len() implies prev[a] != name by {
                        assert(res@[a].0@ == prev[a]);
                    }
                }
            }
            let ghost res0 = res@;
            if !found {
                res.push(cur[i].resource_id.clone());
                proof {
                    assert forall|a: int| 0 <= a < res@.len() implies (#[trigger] res@[a]).0@ == live_names(
                        cur@,
                        i + 1,
                    )[a] by {
                        if a < res0.len() {
                            assert(res@[a] == res0[a]);
                        }
                    }
                }
            }
        }
        i = i + 1;
    }
    proof {
        assert(i == cur@.len());
    }
    res
}

pub proof fn lemma_sum_where_push(s: Seq<Order>, x: Order)
    ensures
        total_effective(s.push(x)) == total_effective(s) + x.effective_quantity,
{
    let t = s.push(x);
    lemma_sum_where_prefix_same(s, t, every(), s.len() as int);
}

proof fn lemma_sum_where_prefix_same(s: Seq<Order>, t: Seq<Order>, pred: spec_fn(int) -> bool, n: int)
    requires
        n <= s.len(),
        n <= t.len(),
        forall|j: int| 0 <= j < n ==> s[j] == t[j],
    ensures
        sum_where(s, pred, n) == sum_where(t, pred, n),
    decreases n,
{
    if n > 0 {
        lemma_sum_where_prefix_same(s, t, pred, n - 1);
    }
}

/// One order's effective quantity is at most the total.
proof fn lemma_one_le_total(s: Seq<Order>, k: int)
    requires
        0 <= k < s.len(),
    ensures
        s[k].effective_quantity <= total_effective(s),
{
    lemma_prefix_bounds(s, k, s.len() as int);
}

proof fn lemma_prefix_bounds(s: Seq<Order>, k: int, n: int)
    requires
        0 <= k < n <= s.len(),
    ensures
        s[k].effective_quantity <= sum_where(s, every(), n),
        sum_where(s, every(), n) <= total_effective(s),
    decreases n,
{
    lemma_total_prefix(s, n);
    lemma_sum_where_nonneg(s, every(), n - 1);
    if k < n - 1 {
        lemma_prefix_bounds(s, k, n - 1);
    }
}

/// Each limit price's magnitude is at most the largest.
proof fn lemma_price_le_max(s: Seq<Order>, k: int, n: int)
    requires
        0 <= k < n <= s.len(),
    ensures
        abs_int(s[k].limit_price.v()) <= max_abs_price(s, n),
        max_abs_price(s, n) >= 0,
    decreases n,
{
    if k < n - 1 {
        lemma_price_le_max(s, k, n - 1);
    }
    lemma_max_nonneg(s, n - 1);
}

proof fn lemma_max_nonneg(s: Seq<Order>, n: int)
    ensures
        max_abs_price(s, n) >= 0,
    decreases n,
{
    if n > 0 {
        lemma_max_nonneg(s, n - 1);
    }
}

/// Pruning keeps the sums and bounds of the original orders valid.
proof fn lemma_pruned_totals(orders: Seq<Order>, cur: Seq<Order>, n: int)
    requires
        pruned_from(orders, cur),
        0 <= n <= cur.len(),
    ensures
        sum_where(cur, every(), n) <= sum_where(orders, every(), n),
    decreases n,
{
    if n > 0 {
        lemma_pruned_totals(orders, cur, n - 1);
    }
}

/// The live orders among the first `n` whose resource is named `name`, in
/// order.
pub open spec fn group_of(s: Seq<Order>, name: Seq<char>, n: int) -> Seq<Order>
    decreases n,
{
    if n <= 0 {
        Seq::empty()
    } else {
        let g = group_of(s, name, n - 1);
        if live(s[n - 1]) && s[n - 1].resource_id.0@ == name {
            g.push(s[n - 1])
        } else {
            g
        }
    }
}

/// The live orders of resource `r`, in order.
fn orders_for(cur: &Vec<Order>, r: &ResourceId) -> (g: Vec<Order>)
    requires
        distinct_order_ids(cur@),
    ensures
        g@ == group_of(cur@, r.0@, cur@.len() as int),
        g@.len() <= cur@.len(),
        total_effective(g@) <= total_effective(cur@),
        distinct_order_ids(g@),
        forall|k: int|
            0 <= k < g@.len() ==> exists|j: int|
                0 <= j < cur@.len() && #[trigger] g@[k] == cur@[j] && live(cur@[j])
                    && cur@[j].resource_id.0@ == r.0@,
{
    let mut g: Vec<Order> = Vec::new();
    let mut i: usize = 0;
    while i < cur.len()
        invariant
            i <= cur@.len(),
            distinct_order_ids(cur@),
            g@.len() <= i,
            total_effective(g@) <= sum_where(cur@, every(), i as int),
            distinct_order_ids(g@),
            forall|k: int|
                0 <= k < g@.len() ==> exists|j: int|
                    0 <= j < i && #[trigger] g@[k] == cur@[j] && live(cur@[j])
                        && cur@[j].resource_id.0@ == r.0@,
            g@ == group_of(cur@, r.0@, i as int),
        decreases cur@.len() - i,
    {
        if cur[i].effective_quantity > 0 && cur[i].resource_id.same(r) {
            let o = cur[i].clone();
            let ghost g0 = g@;
            proof {
                lemma_sum_where_push(g@, o);
            }
            g.push(o);
            proof {
                assert(g@[g@.len() - 1] == cur@[i as int]);
                assert forall|a: int, b: int|
                    0 <= a < g@.len() && 0 <= b < g@.len() && a != b implies g@[a].id != g@[b].id by {
                    if a < g0.len() && b < g0.len() {
                        assert(g@[a] == g0[a] && g@[b] == g0[b]);
                    } else if a < g0.len() {
                        assert(g@[a] == g0[a]);
                        let j = choose|j: int|
                            0 <= j < i && #[trigger] g0[a] == cur@[j] && live(cur@[j])
                                && cur@[j].resource_id.0@ == r.0@;
                        assert(cur@[j].id != cur@[i as int].id);
                    } else if b < g0.len() {
                        assert(g@[b] == g0[b]);
                        let j = choose|j: int|
                            0 <= j < i && #[trigger] g0[b] == cur@[j] && live(cur@[j])
                                && cur@[j].resource_id.0@ == r.0@;
                        assert(cur@[j].id != cur@[i as int].id);
                    }
                }
                assert forall|k: int| 0 <= k < g@.len() implies exists|j: int|
                    0 <= j < i + 1 && #[trigger] g@[k] == cur@[j] && live(cur@[j])
                        && cur@[j].resource_id.0@ == r.0@ by {
                    if k < g0.len() {
                        assert(g@[k] == g0[k]);
                    } else {
                        assert(g@[k] == cur@[i as int]);
                    }
                }
            }
        }
        proof {
            lemma_sum_where_nonneg(cur@, every(), i as int);
        }
        i = i + 1;
    }
    proof {
        lemma_total_prefix(cur@, cur@.len() as int);
    }
    g
}

/// The entries of a fill list have distinct order ids when the orders do.
proof fn lemma_fill_list_distinct(s: Seq<Order>, p: int, vol: int, n: int)
    requires
        0 <= n <= s.len(),
        distinct_order_ids(s),
    ensures
        forall|a: int, b: int|
            0 <= a < fill_list(s, p, vol, n).len() && 0 <= b < fill_list(s, p, vol, n).len() && a
                != b ==> (#[trigger] fill_list(s, p, vol, n)[a]).order_id != (#[trigger] fill_list(
                s,
                p,
                vol,
                n,
            )[b]).order_id,
    decreases n,
{
    if n > 0 {
        lemma_fill_list_distinct(s, p, vol, n - 1);
        let rest = fill_list(s, p, vol, n - 1);
        let all = fill_list(s, p, vol, n);
        lemma_fill_list_bound(s, p, vol, n - 1);
        if fill_amount(s, n - 1, p, vol) > 0 {
            assert forall|a: int, b: int|
                0 <= a < all.len() && 0 <= b < all.len() && a != b implies (#[trigger] all[a]).order_id
                != (#[trigger] all[b]).order_id by {
                if a < rest.len() && b < rest.len() {
                    assert(all[a] == rest[a] && all[b] == rest[b]);
                } else if a < rest.len() {
                    lemma_fill_list_member(s, p, vol, n - 1, a);
                    assert(all[a] == rest[a]);
                } else if b < rest.len() {
                    lemma_fill_list_member(s, p, vol, n - 1, b);
                    assert(all[b] == rest[b]);
                }
            }
        }
    }
}

/// Every entry of a fill list comes from an order with a positive fill.
proof fn lemma_fill_list_member(s: Seq<Order>, p: int, vol: int, n: int, t: int)
    requires
        0 <= n <= s.len(),
        0 <= t < fill_list(s, p, vol, n).len(),
    ensures
        exists|k: int|
            0 <= k < n && fill_list(s, p, vol, n)[t].order_id == s[k].id && fill_list(
                s,
                p,
                vol,
                n,
            )[t].filled_quantity == fill_amount(s, k, p, vol) && fill_amount(s, k, p, vol) > 0,
    decreases n,
{
    let rest = fill_list(s, p, vol, n - 1);
    lemma_fill_list_bound(s, p, vol, n - 1);
    if t < rest.len() {
        lemma_fill_list_member(s, p, vol, n - 1, t);
    } else {
        assert(fill_amount(s, n - 1, p, vol) > 0);
    }
}

/// A positive fill amount trades at the price and is at most the order's
/// effective quantity.
proof fn lemma_fill_amount_facts(s: Seq<Order>, k: int, p: int, vol: int)
    requires
        0 <= k < s.len(),
        fill_amount(s, k, p, vol) > 0,
    ensures
        trades_at(s[k], s[k].order_type == OrderType::Bid, p),
        fill_amount(s, k, p, vol) <= s[k].effective_quantity,
{
}

/// The tentative fills of the first `c` clearings, in order, each with the
/// resource and the price of its clearing.
pub open spec fn clearing_entries(clearings: Seq<(ResourceId, ResourceClearing)>, c: int) -> Seq<
    (ResourceId, Dec, TentativeFill),
>
    decreases c,
{
    if c <= 0 {
        Seq::empty()
    } else {
        clearing_entries(clearings, c - 1) + Seq::new(
            clearings[c - 1].1.tentative_fills@.len(),
            |t: int|
                (clearings[c - 1].0, clearings[c - 1].1.clearing_price, clearings[c - 1].1.tentative_fills@[t]),
        )
    }
}

/// `f` is the final fill of the tentative fill in `e`: its order, quantity,
/// resource and clearing price, with the participant and side of the order
/// of `cur` that it fills.
pub open spec fn final_fill_of(cur: Seq<Order>, e: (ResourceId, Dec, TentativeFill), f: FinalFill) -> bool {
    &&& f.order_id == e.2.order_id
    &&& f.filled_quantity == e.2.filled_quantity
    &&& f.price == e.1
    &&& f.resource_id.0@ == e.0.0@
    &&& exists|j: int|
        0 <= j < cur.len() && (#[trigger] cur[j]).id == e.2.order_id && cur[j].participant_id
            == f.participant_id && cur[j].order_type == f.order_type
}

/// Builds the final fills of a round from its clearings.
fn make_fills(cur: &Vec<Order>, clearings: &Vec<(ResourceId, ResourceClearing)>) -> (r: Result<
    Vec<FinalFill>,
    String,
>)
    requires
        distinct_order_ids(cur@),
        clearings_ok(cur@, clearings@),
    ensures
        r is Ok,
        r matches Ok(v) ==> {
            &&& v@.len() <= cur@.len() * cur@.len()
            &&& forall|i: int| 0 <= i < v@.len() ==> fill_of_order(cur@, #[trigger] v@[i])
            &&& forall|i: int| 0 <= i < v@.len() ==> from_clearing(clearings@, #[trigger] v@[i])
            &&& forall|a: int, b: int|
                0 <= a < v@.len() && 0 <= b < v@.len() && a != b ==> (#[trigger] v@[a]).order_id
                    != (#[trigger] v@[b]).order_id
            &&& v@.len() == clearing_entries(clearings@, clearings@.len() as int).len()
            &&& forall|i: int|
                0 <= i < v@.len() ==> final_fill_of(
                    cur@,
                    clearing_entries(clearings@, clearings@.len() as int)[i],
                    #[trigger] v@[i],
                )
        },
{
    let ghost n = cur@.len();
    let mut v: Vec<FinalFill> = Vec::new();
    let ghost mut src: Seq<(int, int)> = Seq::empty();
    let mut c: usize = 0;
    while c < clearings.len()
        invariant
            c <= clearings@.len(),
            distinct_order_ids(cur@),
            clearings_ok(cur@, clearings@),
            n == cur@.len(),
            v@.len() <= c * n,
            forall|i: int| 0 <= i < v@.len() ==> fill_of_order(cur@, #[trigger] v@[i]),
            forall|i: int| 0 <= i < v@.len() ==> from_clearing(clearings@, #[trigger] v@[i]),
            src.len() == v@.len(),
            forall|i: int|
                0 <= i < v@.len() ==> {
                    let (ci, ti) = #[trigger] src[i];
                    &&& 0 <= ci < c
                    &&& 0 <= ti < clearings@[ci].1.tentative_fills@.len()
                    &&& v@[i].order_id == clearings@[ci].1.tentative_fills@[ti].order_id
                },
            forall|a: int, b: int|
                0 <= a < v@.len() && 0 <= b < v@.len() && a != b ==> (#[trigger] v@[a]).order_id
                    != (#[trigger] v@[b]).order_id,
            v@.len() == clearing_entries(clearings@, c as int).len(),
            forall|i: int|
                0 <= i < v@.len() ==> final_fill_of(cur@, clearing_entries(clearings@, c as int)[i], #[trigger] v@[i]),
        decreases clearings@.len() - c,
    {
        let rc = &clearings[c];
        let price = rc.1.clearing_price;
        let mut t: usize = 0;
        let ghost start = v@.len();
        while t < rc.1.tentative_fills.len()
            invariant
                c < clearings@.len(),
                *rc == clearings@[c as int],
                price == rc.1.clearing_price,
                t <= rc.1.tentative_fills@.len(),
                rc.1.tentative_fills@.len() <= n,
                distinct_order_ids(cur@),
                clearings_ok(cur@, clearings@),
                n == cur@.len(),
                v@.len() == start + t,
                start <= c * n,
                forall|i: int| 0 <= i < v@.len() ==> fill_of_order(cur@, #[trigger] v@[i]),
                forall|i: int| 0 <= i < v@.len() ==> from_clearing(clearings@, #[trigger] v@[i]),
                src.len() == v@.len(),
                forall|i: int|
                    0 <= i < v@.len() ==> {
                        let (ci, ti) = #[trigger] src[i];
                        &&& 0 <= ci <= c
                        &&& 0 <= ti < clearings@[ci].1.tentative_fills@.len()
                        &&& (ci == c ==> ti < t)
                        &&& v@[i].order_id == clearings@[ci].1.tentative_fills@[ti].order_id
                    },
                forall|a: int, b: int|
                    0 <= a < v@.len() && 0 <= b < v@.len() && a != b ==> (#[trigger] v@[a]).order_id
                        != (#[trigger] v@[b]).order_id,
                start == clearing_entries(clearings@, c as int).len(),
                forall|i: int|
                    0 <= i < start ==> final_fill_of(cur@, clearing_entries(clearings@, c as int)[i], #[trigger] v@[i]),
                forall|i: int|
                    start <= i < v@.len() ==> final_fill_of(
                        cur@,
                        (rc.0, price, rc.1.tentative_fills@[i - start]),
                        #[trigger] v@[i],
                    ),
            decreases rc.1.tentative_fills@.len() - t,
        {
            let tf = rc.1.tentative_fills[t];
            proof {
                assert(tentative_of(cur@, rc.0, price, tf));
            }
            match find_order(cur, tf.order_id) {
                None => {
                    proof {
                        let jj = choose|jj: int|
                            0 <= jj < cur@.len() && {
                                let o = #[trigger] cur@[jj];
                                &&& o.id == tf.order_id
                                &&& o.resource_id.0@ == rc.0.0@
                                &&& 0 < tf.filled_quantity <= o.effective_quantity
                                &&& (o.order_type == OrderType::Bid ==> price.v()
                                    <= o.limit_price.v())
                                &&& (o.order_type == OrderType::Ask ==> price.v()
                                    >= o.limit_price.v())
                            };
                        assert(has_order(cur@, tf.order_id));
                    }
                    return Err(String::from_str("Order not found in map during success fill creation"));
                },
                Some(j) => {
                    let o = &cur[j];
                    let f = FinalFill {
                        order_id: tf.order_id,
                        participant_id: o.participant_id,
                        resource_id: rc.0.clone(),
                        order_type: o.order_type,
                        filled_quantity: tf.filled_quantity,
                        price,
                    };
                    proof {
                        let jj = choose|jj: int|
                            0 <= jj < cur@.len() && {
                                let o = #[trigger] cur@[jj];
                                &&& o.id == tf.order_id
                                &&& o.resource_id.0@ == rc.0.0@
                                &&& 0 < tf.filled_quantity <= o.effective_quantity
                                &&& (o.order_type == OrderType::Bid ==> price.v()
                                    <= o.limit_price.v())
                                &&& (o.order_type == OrderType::Ask ==> price.v()
                                    >= o.limit_price.v())
                            };
                        assert(jj == j as int);
                        assert(fill_of_order(cur@, f));
                        assert(from_clearing(clearings@, f));
                        assert forall|i: int| 0 <= i < v@.len() implies (#[trigger] v@[i]).order_id != f.order_id by {
                            let (ci, ti) = src[i];
                            if ci == c {
                                assert(clearings@[c as int].1.tentative_fills@[ti].order_id
                                    != clearings@[c as int].1.tentative_fills@[t as int].order_id);
                            } else {
                                let tf2 = clearings@[ci].1.tentative_fills@[ti];
                                assert(tentative_of(cur@, clearings@[ci].0, clearings@[ci].1.clearing_price, tf2));
                                let j2 = choose|j2: int|
                                    0 <= j2 < cur@.len() && {
                                        let o = #[trigger] cur@[j2];
                                        &&& o.id == tf2.order_id
                                        &&& o.resource_id.0@ == clearings@[ci].0.0@
                                        &&& 0 < tf2.filled_quantity <= o.effective_quantity
                                        &&& (o.order_type == OrderType::Bid ==> clearings@[ci].1.clearing_price.v()
                                            <= o.limit_price.v())
                                        &&& (o.order_type == OrderType::Ask ==> clearings@[ci].1.clearing_price.v()
                                            >= o.limit_price.v())
                                    };
                                assert(clearings@[ci].0.0@ != clearings@[c as int].0.0@);
                                if v@[i].order_id == f.order_id {
                                    assert(cur@[j2].id == cur@[jj].id);
                                }
                            }
                        }
                    }
                    let ghost v0 = v@;
                    proof {
                        assert(cur@[j as int].id == tf.order_id);
                        assert(final_fill_of(cur@, (rc.0, price, rc.1.tentative_fills@[t as int]), f));
                    }
                    v.push(f);
                    proof {
                        assert forall|i: int| 0 <= i < start implies final_fill_of(
                            cur@,
                            clearing_entries(clearings@, c as int)[i],
                            #[trigger] v@[i],
                        ) by {
                            assert(v@[i] == v0[i]);
                        }
                        assert forall|i: int| start <= i < v@.len() implies final_fill_of(
                            cur@,
                            (rc.0, price, rc.1.tentative_fills@[i - start]),
                            #[trigger] v@[i],
                        ) by {
                            if i < v0.len() {
                                assert(v@[i] == v0[i]);
                            }
                        }
                        src = src.push((c as int, t as int));
                        assert(v@[v@.len() - 1] == f);
                        assert forall|a: int, b: int|
                            0 <= a < v@.len() && 0 <= b < v@.len() && a != b implies (#[trigger] v@[a]).order_id
                            != (#[trigger] v@[b]).order_id by {
                            if a < v0.len() && b < v0.len() {
                                assert(v@[a] == v0[a] && v@[b] == v0[b]);
                            } else if a < v0.len() {
                                assert(v@[a] == v0[a]);
                            } else if b < v0.len() {
                                assert(v@[b] == v0[b]);
                            }
                        }
                        assert forall|i: int| 0 <= i < v@.len() implies {
                            let (ci, ti) = #[trigger] src[i];
                            &&& 0 <= ci <= c
                            &&& 0 <= ti < clearings@[ci].1.tentative_fills@.len()
                            &&& (ci == c ==> ti < t + 1)
                            &&& v@[i].order_id == clearings@[ci].1.tentative_fills@[ti].order_id
                        } by {
                            if i < v0.len() {
                                assert(v@[i] == v0[i]);
                            }
                        }
                    }
                },
            }
            t = t + 1;
        }
        proof {
            assert(v@.len() <= c * n + n);
            assert(c * n + n == (c + 1) * n) by (nonlinear_arith);
            let e0 = clearing_entries(clearings@, c as int);
            let e1 = clearing_entries(clearings@, c + 1);
            assert(e1.len() == v@.len());
            assert forall|i: int| 0 <= i < v@.len() implies final_fill_of(cur@, e1[i], #[trigger] v@[i]) by {
                if i < start {
                    assert(e1[i] == e0[i]);
                } else {
                    assert(e1[i] == (rc.0, price, rc.1.tentative_fills@[i - start]));
                }
            }
        }
        c = c + 1;
    }
    proof {
        assert(c <= n);
        assert(c * n <= n * n) by (nonlinear_arith)
            requires
                c <= n,
        ;
        assert(v@.len() <= n * n);
    }
    Ok(v)
}

/// The value of `q` units at `price`, computed exactly.
/// The value of `q` units at `price`, as `rust_decimal` multiplies them:
/// within a unit of the exact value, and exact when `exact` and the amounts fit
/// at scale `sc`.
fn value_of(q: u64, price: Dec, Ghost(exact): Ghost<bool>, Ghost(sc): Ghost<nat>) -> (r: Dec)
    requires
        price.wf(),
        q * abs_int(price.v()) <= limit(),
        exact ==> sc <= 28 && price.scale <= sc && q * abs_int(price.v()) <= (MAX_MANTISSA - 1)
            * pow10((28 - sc) as nat),
    ensures
        r.wf(),
        r == decimal_product(Dec { mantissa: q as i128, scale: 0 }, price),
        abs_int(r.v()) <= q * abs_int(price.v()) + unit(),
        2 * abs_int(r.v() - q * price.v()) <= unit(),
        exact ==> r.scale <= sc && r.v() == q * price.v(),
{
    let a = Dec::from_u64(q);
    proof {
        lemma_unit();
        assert(abs_int(a.v() * price.v()) == unit() * (q * abs_int(price.v()))) by (nonlinear_arith)
            requires
                a.v() == q * unit(),
                q >= 0,
                unit() > 0,
        ;
        assert(unit() * (q * abs_int(price.v())) <= limit() * unit()) by (nonlinear_arith)
            requires
                q * abs_int(price.v()) <= limit(),
                unit() > 0,
        ;
        if exact {
            lemma_pow10_monotone((28 - sc) as nat, (28 - price.scale) as nat);
            lemma_pow10_monotone((28 - price.scale) as nat, 28);
            lemma_pow10_positive((28 - sc) as nat);
            lemma_unit();
            let pp = pow10((28 - price.scale) as nat);
            let ps = pow10((28 - sc) as nat);
            let m = price.mantissa as int;
            let am = abs_int(m);
            assert(abs_int(price.v()) == am * pp) by (nonlinear_arith)
                requires
                    price.v() == m * pp,
                    pp > 0,
                    am == abs_int(m),
            ;
            assert(q * am * pp <= (MAX_MANTISSA - 1) * pp) by (nonlinear_arith)
                requires
                    q * (am * pp) <= (MAX_MANTISSA - 1) * ps,
                    ps <= pp,
                    q >= 0,
                    am >= 0,
            ;
            assert(q * am <= MAX_MANTISSA - 1) by (nonlinear_arith)
                requires
                    q * am * pp <= (MAX_MANTISSA - 1) * pp,
                    pp > 0,
            ;
            assert(abs_int(a.mantissa * price.mantissa) == q * am) by (nonlinear_arith)
                requires
                    a.mantissa == q,
                    q >= 0,
                    am == abs_int(m),
                    m == price.mantissa,
            ;
            assert(abs_int(a.v() * price.v()) == unit() * (q * abs_int(price.v()))) by (nonlinear_arith)
                requires
                    a.v() == q * unit(),
                    q >= 0,
                    unit() > 0,
            ;
            assert(unit() * (q * abs_int(price.v())) <= unit() * ((MAX_MANTISSA - 1) * ps))
                by (nonlinear_arith)
                requires
                    q * abs_int(price.v()) <= (MAX_MANTISSA - 1) * ps,
                    unit() > 0,
            ;
            assert(unit() * ((MAX_MANTISSA - 1) * ps) <= limit() * unit()) by (nonlinear_arith)
                requires
                    ps <= unit(),
                    unit() > 0,
            ;
        }
    }
    let r = dec_mul(a, price);
    proof {
        lemma_product_size(a, price, r);
        assert(abs_int(r.v()) <= q * abs_int(price.v()) + unit()) by (nonlinear_arith)
            requires
                abs_int(r.v()) * unit() <= abs_int(a.v() * price.v()) + unit() * unit(),
                abs_int(a.v() * price.v()) == unit() * (q * abs_int(price.v())),
                unit() > 0,
        ;
        lemma_v_sign(r);
        assert(2 * abs_int(r.v() - q * price.v()) <= unit()) by (nonlinear_arith)
            requires
                2 * abs_int(r.v() * unit() - a.v() * price.v()) <= unit() * r.ulp(),
                a.v() == q * unit(),
                r.ulp() <= unit(),
                unit() > 0,
        ;
        if exact {
            assert(r.v() * unit() == (q * unit()) * price.v());
            assert(r.v() == q * price.v()) by (nonlinear_arith)
                requires
                    r.v() * unit() == (q * unit()) * price.v(),
                    unit() > 0,
            ;
        }
    }
    r
}

proof fn lemma_scaled_bound(k: int, n: int, qb: int, pb: int)
    requires
        0 <= k <= n,
        qb >= 0,
        pb >= 0,
    ensures
        k * qb * pb <= n * qb * pb,
        0 <= k * qb * pb,
        (k + 1) * qb * pb == k * qb * pb + qb * pb,
{
    assert(k * qb * pb <= n * qb * pb) by (nonlinear_arith)
        requires
            0 <= k <= n,
            qb >= 0,
            pb >= 0,
    ;
    assert(0 <= k * qb * pb) by (nonlinear_arith)
        requires
            0 <= k,
            qb >= 0,
            pb >= 0,
    ;
    assert((k + 1) * qb * pb == k * qb * pb + qb * pb) by (nonlinear_arith);
}

/// What a fill is worth as `rust_decimal` multiplies its quantity by its
/// price.
pub open spec fn value_dec(f: FinalFill) -> Dec {
    decimal_product(Dec { mantissa: f.filled_quantity as i128, scale: 0 }, f.price)
}

/// The participant's net outflow over the first `n` fills as the auction adds
/// it up in decimals: purchases added, sales taken away, in fill order.
pub open spec fn outflow_dec(fills: Seq<FinalFill>, id: ParticipantId, n: int) -> Dec
    decreases n,
{
    if n <= 0 {
        Dec { mantissa: 0, scale: 0 }
    } else {
        let prev = outflow_dec(fills, id, n - 1);
        let f = fills[n - 1];
        if f.participant_id == id {
            if f.order_type == OrderType::Bid {
                decimal_sum(prev, value_dec(f))
            } else {
                decimal_difference(prev, value_dec(f))
            }
        } else {
            prev
        }
    }
}

/// The participant's purchases over the first `n` fills, added up in decimals.
pub open spec fn cost_dec(fills: Seq<FinalFill>, id: ParticipantId, n: int) -> Dec
    decreases n,
{
    if n <= 0 {
        Dec { mantissa: 0, scale: 0 }
    } else {
        let prev = cost_dec(fills, id, n - 1);
        let f = fills[n - 1];
        if f.participant_id == id && f.order_type == OrderType::Bid {
            decimal_sum(prev, value_dec(f))
        } else {
            prev
        }
    }
}

/// The net outflow, the purchase cost, and whether the participant traded at
/// all, over a round's fills. The totals are exact when `exact` holds.
fn participant_totals(
    fills: &Vec<FinalFill>,
    id: ParticipantId,
    Ghost(exact): Ghost<bool>,
    Ghost(sc): Ghost<nat>,
    Ghost(qb): Ghost<int>,
    Ghost(pb): Ghost<int>,
) -> (r: (Dec, Dec, bool))
    requires
        qb >= 0,
        pb >= 0,
        fills@.len() * (qb * pb + 2 * unit()) <= limit(),
        exact ==> sc <= 28 && fills@.len() * qb * pb <= (MAX_MANTISSA - 1) * pow10((28 - sc) as nat),
        forall|i: int|
            0 <= i < fills@.len() ==> {
                let f = #[trigger] fills@[i];
                &&& f.price.wf()
                &&& (exact ==> f.price.scale <= sc)
                &&& abs_int(f.price.v()) <= pb
                &&& f.filled_quantity <= qb
            },
    ensures
        r.0 == outflow_dec(fills@, id, fills@.len() as int),
        r.0.wf(),
        abs_int(r.0.v()) <= fills@.len() * (qb * pb + 2 * unit()),
        r.1 == cost_dec(fills@, id, fills@.len() as int),
        r.1.wf(),
        abs_int(r.1.v()) <= fills@.len() * (qb * pb + 2 * unit()),
        r.2 == has_fill(fills@, id, fills@.len() as int),
        abs_int(r.0.v() - net_outflow(fills@, id, fills@.len() as int)) <= fills@.len() * unit(),
        exact ==> {
            &&& r.0.scale <= sc
            &&& r.0.v() == net_outflow(fills@, id, fills@.len() as int)
            &&& abs_int(r.0.v()) <= fills@.len() * qb * pb
            &&& r.1.scale <= sc
            &&& r.1.v() == purchase_cost(fills@, id, fills@.len() as int)
            &&& abs_int(r.1.v()) <= fills@.len() * qb * pb
        },
{
    let ghost n = fills@.len() as int;
    let ghost cap = (MAX_MANTISSA - 1) * pow10((28 - sc) as nat);
    let ghost step = qb * pb + 2 * unit();
    let mut out = Dec::zero();
    let mut cost = Dec::zero();
    let mut touched = false;
    let mut i: usize = 0;
    proof {
        lemma_unit();
        assert(qb * pb >= 0) by (nonlinear_arith)
            requires
                qb >= 0,
                pb >= 0,
        ;
    }
    while i < fills.len()
        invariant
            n == fills@.len(),
            cap == (MAX_MANTISSA - 1) * pow10((28 - sc) as nat),
            step == qb * pb + 2 * unit(),
            unit() == 10000000000000000000000000000,
            qb >= 0,
            pb >= 0,
            qb * pb >= 0,
            n * step <= limit(),
            exact ==> sc <= 28 && n * qb * pb <= cap,
            forall|i: int|
                0 <= i < fills@.len() ==> {
                    let f = #[trigger] fills@[i];
                    &&& f.price.wf()
                    &&& (exact ==> f.price.scale <= sc)
                    &&& abs_int(f.price.v()) <= pb
                    &&& f.filled_quantity <= qb
                },
            i <= n,
            out == outflow_dec(fills@, id, i as int),
            out.wf(),
            abs_int(out.v()) <= i * step,
            abs_int(out.v() - net_outflow(fills@, id, i as int)) <= i * unit(),
            cost == cost_dec(fills@, id, i as int),
            cost.wf(),
            abs_int(cost.v()) <= i * step,
            touched == has_fill(fills@, id, i as int),
            exact ==> {
                &&& out.scale <= sc
                &&& out.v() == net_outflow(fills@, id, i as int)
                &&& abs_int(out.v()) <= i * qb * pb
                &&& cost.scale <= sc
                &&& cost.v() == purchase_cost(fills@, id, i as int)
                &&& abs_int(cost.v()) <= i * qb * pb
            },
        decreases n - i,
    {
        let f = &fills[i];
        proof {
            lemma_scaled_bound(i as int, n, qb, pb);
            lemma_scaled_bound(i as int + 1, n, qb, pb);
            assert(f.filled_quantity * abs_int(f.price.v()) <= qb * pb) by (nonlinear_arith)
                requires
                    0 <= f.filled_quantity <= qb,
                    0 <= abs_int(f.price.v()) <= pb,
            ;
            assert(i * step <= n * step && (i + 1) * step <= n * step && (i + 1) * step == i * step + step)
                by (nonlinear_arith)
                requires
                    0 <= i < n,
                    step >= 0,
            ;
            if exact {
                lemma_pow10_positive((28 - sc) as nat);
                lemma_pow10_monotone((28 - sc) as nat, 28);
                assert(qb * pb <= cap) by (nonlinear_arith)
                    requires
                        n * qb * pb <= cap,
                        n >= 1,
                        qb * pb >= 0,
                ;
            }
        }
        if f.participant_id == id {
            proof {
                assert(f.filled_quantity * abs_int(f.price.v()) <= limit());
                if exact {
                    assert(f.filled_quantity * abs_int(f.price.v()) <= cap);
                }
            }
            let val = value_of(f.filled_quantity, f.price, Ghost(exact), Ghost(sc));
            proof {
                assert(val == value_dec(fills@[i as int]));
                if exact {
                    assert(abs_int(val.v()) == f.filled_quantity * abs_int(f.price.v()))
                        by (nonlinear_arith)
                        requires
                            val.v() == f.filled_quantity * f.price.v(),
                            f.filled_quantity >= 0,
                    ;
                    lemma_exact_sum(out, val, sc);
                    lemma_exact_difference(out, val, sc);
                }
            }
            if f.order_type == OrderType::Bid {
                proof {
                    if exact {
                        lemma_exact_sum(cost, val, sc);
                        lemma_v_sign(f.price);
                    }
                }
                let ghost out0 = out;
                let ghost cost0 = cost;
                out = dec_add(out, val);
                cost = dec_add(cost, val);
                proof {
                    lemma_rounded_size(out0.v() + val.v(), out);
                    lemma_rounded_size(cost0.v() + val.v(), cost);
                    lemma_v_sign(out);
                    assert(fill_value(fills@[i as int]) == f.filled_quantity * f.price.v());
                }
            } else {
                let ghost out0 = out;
                out = dec_sub(out, val);
                proof {
                    lemma_rounded_size(out0.v() - val.v(), out);
                    lemma_v_sign(out);
                    assert(fill_value(fills@[i as int]) == f.filled_quantity * f.price.v());
                }
            }
            touched = true;
        }
        proof {
            if !(f.participant_id == id) {
                if has_fill(fills@, id, i as int + 1) {
                    let w = choose|w: int|
                        0 <= w < i + 1 && w < fills@.len() && (#[trigger] fills@[w]).participant_id
                            == id;
                    assert(w < i);
                }
            } else {
                assert(fills@[i as int].participant_id == id);
            }
        }
        i = i + 1;
    }
    (out, cost, touched)
}

/// An effective quantity after pruning by `factor`: the whole part of its
/// product with the factor; a quantity of zero stays zero.
pub open spec fn pruned_quantity(eff: u64, factor: Dec) -> int {
    if eff == 0 {
        0
    } else {
        decimal_product(Dec { mantissa: eff as i128, scale: 0 }, factor).floor_int()
    }
}

/// `o` with its effective quantity pruned by `factor`.
pub open spec fn pruned_order(o: Order, factor: Dec) -> Order {
    Order { effective_quantity: pruned_quantity(o.effective_quantity, factor) as u64, ..o }
}

/// Lowers the effective quantity of the first order with the id to the whole
/// part of its product with `factor`.
fn prune_order(cur: &mut Vec<Order>, id: OrderId, factor: &Dec) -> (r: Result<(), String>)
    requires
        factor.wf(),
        0 <= factor.v() <= unit(),
    ensures
        r is Ok,
        pruned_from(old(cur)@, final(cur)@),
        !has_order(old(cur)@, id) ==> final(cur)@ == old(cur)@,
        has_order(old(cur)@, id) ==> final(cur)@ == old(cur)@.update(
            first_at(old(cur)@, id, 0),
            pruned_order(old(cur)@[first_at(old(cur)@, id, 0)], *factor),
        ),
        forall|j: int|
            0 <= j < old(cur)@.len() && (#[trigger] old(cur)@[j]).id == id && (forall|k: int|
                0 <= k < j ==> (#[trigger] old(cur)@[k]).id != id) ==> final(cur)@ == old(cur)@.update(
                j,
                pruned_order(old(cur)@[j], *factor),
            ) && 0 <= pruned_quantity(old(cur)@[j].effective_quantity, *factor)
                <= old(cur)@[j].effective_quantity,
{
    proof {
        lemma_pruned_refl(cur@);
    }
    match find_order(cur, id) {
        None => Ok(()),
        Some(j) => {
            let eff = cur[j].effective_quantity;
            proof {
                lemma_first_at(cur@, id, 0, j as int);
                if (first_at(cur@, id, 0) as int) < j {
                    assert(cur@[first_at(cur@, id, 0)].id != id);
                }
                assert(first_at(cur@, id, 0) == j);
                assert forall|jj: int|
                    0 <= jj < cur@.len() && (#[trigger] cur@[jj]).id == id && (forall|k: int|
                        0 <= k < jj ==> (#[trigger] cur@[k]).id != id) implies jj == j by {
                    if jj < j {
                        assert(cur@[jj].id != id);
                    }
                    if j < jj {
                        assert(cur@[j as int].id != id);
                    }
                }
            }
            if eff == 0 {
                proof {
                    assert(pruned_order(cur@[j as int], *factor) == cur@[j as int]);
                    assert(cur@.update(j as int, pruned_order(cur@[j as int], *factor)) =~= cur@);
                }
                return Ok(());
            }
            let a = Dec::from_u64(eff);
            proof {
                lemma_unit();
                assert(a.v() * factor.v() <= (MAX_MANTISSA - 1) * unit() * unit())
                    by (nonlinear_arith)
                    requires
                        a.v() == eff * unit(),
                        0 <= eff <= u64::MAX,
                        0 <= factor.v() <= unit(),
                        unit() > 0,
                ;
                assert(a.v() * factor.v() >= 0) by (nonlinear_arith)
                    requires
                        a.v() == eff * unit(),
                        0 <= eff,
                        0 <= factor.v(),
                        unit() > 0,
                ;
            }
            let prod = dec_mul(a, *factor);
            proof {
                lemma_v_sign(prod);
                let u = unit();
                let rv = prod.v();
                let l = prod.ulp();
                let af = a.v() * factor.v();
                assert(af <= eff * u * u) by (nonlinear_arith)
                    requires
                        af == a.v() * factor.v(),
                        a.v() == eff * u,
                        0 <= eff,
                        0 <= factor.v() <= u,
                        u > 0,
                ;
                assert(2 * rv * u >= -u * l) by (nonlinear_arith)
                    requires
                        2 * abs_int(rv * u - af) <= u * l,
                        l > 0,
                        u > 0,
                        af >= 0,
                ;
                assert(2 * rv >= -l) by (nonlinear_arith)
                    requires
                        2 * rv * u >= -u * l,
                        u > 0,
                ;
                assert(prod.mantissa >= 0) by (nonlinear_arith)
                    requires
                        2 * rv >= -l,
                        rv == prod.mantissa * l,
                        l > 0,
                ;
                assert(2 * rv * u <= 2 * eff * u * u + u * l) by (nonlinear_arith)
                    requires
                        2 * abs_int(rv * u - af) <= u * l,
                        af <= eff * u * u,
                ;
                assert(2 * rv <= 2 * eff * u + l) by (nonlinear_arith)
                    requires
                        2 * rv * u <= 2 * eff * u * u + u * l,
                        u > 0,
                ;
                assert(rv < (eff + 1) * u);
                assert(rv / u <= eff) by (nonlinear_arith)
                    requires
                        0 <= rv < (eff + 1) * u,
                        u > 0,
                ;
            }
            let fl = dec_floor(&prod);
            proof {
                lemma_unit();
                assert((prod.v() / unit()) * unit() / unit() == prod.v() / unit())
                    by (nonlinear_arith)
                    requires
                        unit() > 0,
                ;
                assert(prod.v() / unit() >= 0) by (nonlinear_arith)
                    requires
                        prod.v() >= 0,
                        unit() > 0,
                ;
                assert((prod.v() / unit()) * unit() >= 0) by (nonlinear_arith)
                    requires
                        prod.v() / unit() >= 0,
                        unit() > 0,
                ;
            }
            match dec_to_u64(&fl) {
                None => Err(String::from_str("Failed to convert pruned quantity back to u64")),
                Some(q) => {
                    let mut o = cur[j].clone();
                    o.effective_quantity = q;
                    let ghost before_set = cur@;
                    proof {
                        assert(a == Dec { mantissa: eff as i128, scale: 0 });
                        assert(q == pruned_quantity(eff, *factor));
                        assert(o == pruned_order(before_set[j as int], *factor));
                    }
                    cur.set(j, o);
                    proof {
                        assert forall|k: int| 0 <= k < cur@.len() implies ({
                            let a = #[trigger] cur@[k];
                            let b = before_set[k];
                            &&& a.id == b.id
                            &&& a.participant_id == b.participant_id
                            &&& a.resource_id == b.resource_id
                            &&& a.order_type == b.order_type
                            &&& a.original_quantity == b.original_quantity
                            &&& a.limit_price == b.limit_price
                            &&& a.timestamp == b.timestamp
                            &&& a.effective_quantity <= b.effective_quantity
                        }) by {
                            if k != j {
                                assert(cur@[k] == before_set[k]);
                            }
                        }
                    }
                    Ok(())
                },
            }
        },
    }
}

proof fn lemma_pruned_refl(s: Seq<Order>)
    ensures
        pruned_from(s, s),
{
}

proof fn lemma_pruned_trans(a: Seq<Order>, b: Seq<Order>, c: Seq<Order>)
    requires
        pruned_from(a, b),
        pruned_from(b, c),
    ensures
        pruned_from(a, c),
{
    assert forall|j: int| 0 <= j < c.len() implies ({
        let x = #[trigger] c[j];
        let y = a[j];
        &&& x.id == y.id
        &&& x.participant_id == y.participant_id
        &&& x.resource_id == y.resource_id
        &&& x.order_type == y.order_type
        &&& x.original_quantity == y.original_quantity
        &&& x.limit_price == y.limit_price
        &&& x.timestamp == y.timestamp
        &&& x.effective_quantity <= y.effective_quantity
    }) by {
        assert(b[j] == b[j]);
    }
}

proof fn lemma_no_fill_zero(fills: Seq<FinalFill>, id: ParticipantId, n: int)
    requires
        0 <= n <= fills.len(),
        !has_fill(fills, id, n),
    ensures
        net_outflow(fills, id, n) == 0,
    decreases n,
{
    if n > 0 {
        assert(fills[n - 1].participant_id != id);
        assert(!has_fill(fills, id, n - 1)) by {
            if has_fill(fills, id, n - 1) {
                let w = choose|w: int|
                    0 <= w < n - 1 && w < fills.len() && (#[trigger] fills[w]).participant_id == id;
                assert(0 <= w < n);
            }
        }
        lemma_no_fill_zero(fills, id, n - 1);
    }
}

/// `c` clears the orders `g` of one resource: at the best price, for the
/// volume that trades there, with the fills that price-time priority gives,
/// the bids' and the asks' fills each totalling that volume.
pub open spec fn resource_cleared(g: Seq<Order>, last: Option<Dec>, c: ResourceClearing) -> bool {
    &&& is_clearing(g, last, c)
    &&& side_filled(g, true, c.clearing_price.v(), c.matched_volume as int, g.len() as int) == c.matched_volume
    &&& side_filled(g, false, c.clearing_price.v(), c.matched_volume as int, g.len() as int) == c.matched_volume
}

/// `cl` holds, in order, the clearings of those of the first `k` resources
/// `names` whose live orders in `cur` trade: a resource where no live order's
/// price trades a positive volume (one side missing, or the best bid below
/// the best ask) has none; each other one has the clearing of its live
/// orders, with the last clearing price recorded for it.
pub open spec fn clears(
    cur: Seq<Order>,
    prices: Seq<(ResourceId, Dec)>,
    names: Seq<Seq<char>>,
    k: int,
    cl: Seq<(ResourceId, ResourceClearing)>,
) -> bool
    decreases k,
{
    if k <= 0 {
        cl.len() == 0
    } else {
        let g = group_of(cur, names[k - 1], cur.len() as int);
        if no_trade(g) {
            clears(cur, prices, names, k - 1, cl)
        } else {
            &&& cl.len() > 0
            &&& cl.last().0.0@ == names[k - 1]
            &&& resource_cleared(g, first_price(prices, names[k - 1], 0), cl.last().1)
            &&& clears(cur, prices, names, k - 1, cl.drop_last())
        }
    }
}

/// A successful auction's result comes from the final round: `cur` is the
/// orders as pruned by then, `cl` the clearings of its resources in order of
/// first appearance, the fills are the final fills of those clearings' fills
/// in order, and the clearing prices are theirs, one per resource.
pub open spec fn cleared_by(
    orders: Seq<Order>,
    prices: Seq<(ResourceId, Dec)>,
    succ: AuctionSuccess,
    cur: Seq<Order>,
    cl: Seq<(ResourceId, ResourceClearing)>,
) -> bool {
    let names = live_names(cur, cur.len() as int);
    let entries = clearing_entries(cl, cl.len() as int);
    &&& pruned_from(orders, cur)
    &&& clears(cur, prices, names, names.len() as int, cl)
    &&& succ.final_fills@.len() == entries.len()
    &&& forall|i: int|
        0 <= i < entries.len() ==> final_fill_of(cur, entries[i], #[trigger] succ.final_fills@[i])
    &&& succ.clearing_prices@.len() == cl.len()
    &&& forall|c: int|
        0 <= c < cl.len() ==> (#[trigger] succ.clearing_prices@[c]).0 == cl[c].0
            && succ.clearing_prices@[c].1 == cl[c].1.clearing_price
    &&& forall|c1: int, c2: int|
        0 <= c1 < cl.len() && 0 <= c2 < cl.len() && c1 != c2 ==> (#[trigger] succ.clearing_prices@[c1]).0.0@
            != (#[trigger] succ.clearing_prices@[c2]).0.0@
}

/// `fills` are the final fills of a round on the orders `cur`: the final
/// fills, in order, of the clearings of its resources.
#[verifier::opaque]
pub open spec fn round_fills(cur: Seq<Order>, prices: Seq<(ResourceId, Dec)>, fills: Seq<FinalFill>) -> bool {
    exists|cl: Seq<(ResourceId, ResourceClearing)>|
        #[trigger] clears(
            cur,
            prices,
            live_names(cur, cur.len() as int),
            live_names(cur, cur.len() as int).len() as int,
            cl,
        ) && fills.len() == clearing_entries(cl, cl.len() as int).len() && forall|i: int|
            0 <= i < fills.len() ==> final_fill_of(cur, clearing_entries(cl, cl.len() as int)[i], #[trigger] fills[i])
}

/// The factor a participant's bids are scaled by after a round with `fills`:
/// when its net outflow exceeds its currency, it bought something and the
/// shortfall is positive, one less the share of its purchases it cannot pay
/// for (all of them at most); else none.
#[verifier::opaque]
pub open spec fn prune_factor(p: Participant, fills: Seq<FinalFill>) -> Option<Dec> {
    let n = fills.len() as int;
    let out = outflow_dec(fills, p.id, n);
    let cost = cost_dec(fills, p.id, n);
    let one = Dec { mantissa: 1, scale: 0 };
    if out.v() > p.currency.v() {
        let sf = decimal_difference(out, p.currency);
        if cost.v() > 0 && sf.v() > 0 {
            let red = if sf.v() <= cost.v() {
                dmin(decimal_quotient(sf, cost), one)
            } else {
                one
            };
            Some(decimal_difference(one, red))
        } else {
            None
        }
    } else {
        None
    }
}

/// The orders after pruning the first order with the id by `factor`.
#[verifier::opaque]
pub open spec fn prune_first(cur: Seq<Order>, id: OrderId, factor: Dec) -> Seq<Order> {
    if has_order(cur, id) {
        let j = first_at(cur, id, 0);
        cur.update(j, pruned_order(cur[j], factor))
    } else {
        cur
    }
}

/// The orders after pruning, by `factor`, the order of each of the first `f`
/// fills that is a bid of the participant.
#[verifier::opaque]
pub open spec fn prune_bids(cur: Seq<Order>, fills: Seq<FinalFill>, id: ParticipantId, factor: Dec, f: int) -> Seq<Order>
    decreases f,
{
    if f <= 0 {
        cur
    } else {
        let c = prune_bids(cur, fills, id, factor, f - 1);
        if fills[f - 1].participant_id == id && fills[f - 1].order_type == OrderType::Bid {
            prune_first(c, fills[f - 1].order_id, factor)
        } else {
            c
        }
    }
}

/// The orders after pruning the bids of each of the first `k` participants
/// that has a factor after the round with `fills`, participant by
/// participant.
#[verifier::opaque]
pub open spec fn prune_round(cur: Seq<Order>, fills: Seq<FinalFill>, ps: Seq<Participant>, k: int) -> Seq<Order>
    decreases k,
{
    if k <= 0 {
        cur
    } else {
        let c = prune_round(cur, fills, ps, k - 1);
        match prune_factor(ps[k - 1], fills) {
            Some(factor) => prune_bids(c, fills, ps[k - 1].id, factor, fills.len() as int),
            None => c,
        }
    }
}

/// The position of the first order from `k` on with the id, or the length.
pub open spec fn first_at(cur: Seq<Order>, id: OrderId, k: int) -> int
    decreases cur.len() - k,
{
    if k < 0 || k >= cur.len() {
        cur.len() as int
    } else if cur[k].id == id {
        k
    } else {
        first_at(cur, id, k + 1)
    }
}

proof fn lemma_first_at(cur: Seq<Order>, id: OrderId, k: int, i: int)
    requires
        0 <= k <= i < cur.len(),
        cur[i].id == id,
    ensures
        k <= first_at(cur, id, k) <= i,
        cur[first_at(cur, id, k)].id == id,
        forall|m: int| k <= m < first_at(cur, id, k) ==> (#[trigger] cur[m]).id != id,
    decreases i - k,
{
    if cur[k].id != id {
        lemma_first_at(cur, id, k + 1, i);
    }
}

/// Pruning the first order with the id, as `prune_order` does.
proof fn lemma_prune_first(before: Seq<Order>, after: Seq<Order>, id: OrderId, factor: Dec)
    requires
        !has_order(before, id) ==> after == before,
        has_order(before, id) ==> after == before.update(
            first_at(before, id, 0),
            pruned_order(before[first_at(before, id, 0)], factor),
        ),
    ensures
        after == prune_first(before, id, factor),
{
    reveal(prune_first);
}

/// A round's fills, from the clearings of its resources.
proof fn lemma_round_fills_intro(
    cur: Seq<Order>,
    prices: Seq<(ResourceId, Dec)>,
    fills: Seq<FinalFill>,
    cl: Seq<(ResourceId, ResourceClearing)>,
)
    requires
        clears(cur, prices, live_names(cur, cur.len() as int), live_names(cur, cur.len() as int).len() as int, cl),
        fills.len() == clearing_entries(cl, cl.len() as int).len(),
        forall|i: int|
            0 <= i < fills.len() ==> final_fill_of(cur, clearing_entries(cl, cl.len() as int)[i], #[trigger] fills[i]),
    ensures
        round_fills(cur, prices, fills),
{
    reveal(round_fills);
}

/// One more participant's pruning in a round.
proof fn lemma_prune_round_next(start: Seq<Order>, fills: Seq<FinalFill>, ps: Seq<Participant>, k: int)
    requires
        0 <= k < ps.len(),
    ensures
        prune_round(start, fills, ps, k + 1) == match prune_factor(ps[k], fills) {
            Some(factor) => prune_bids(prune_round(start, fills, ps, k), fills, ps[k].id, factor, fills.len() as int),
            None => prune_round(start, fills, ps, k),
        },
{
    reveal(prune_round);
}

/// One more fill's pruning for a participant.
proof fn lemma_prune_bids_next(c: Seq<Order>, fills: Seq<FinalFill>, id: ParticipantId, factor: Dec, f: int)
    requires
        0 <= f < fills.len(),
    ensures
        prune_bids(c, fills, id, factor, f + 1) == (if fills[f].participant_id == id && fills[f].order_type
            == OrderType::Bid {
            prune_first(prune_bids(c, fills, id, factor, f), fills[f].order_id, factor)
        } else {
            prune_bids(c, fills, id, factor, f)
        }),
        prune_bids(c, fills, id, factor, 0) == c,
{
    reveal(prune_bids);
}

proof fn lemma_prune_round_zero(start: Seq<Order>, fills: Seq<FinalFill>, ps: Seq<Participant>)
    ensures
        prune_round(start, fills, ps, 0) == start,
{
    reveal(prune_round);
}

/// The factor of a participant with a positive cost and shortfall.
proof fn lemma_prune_factor_some(p: Participant, fills: Seq<FinalFill>, sf: Dec, red: Dec, factor: Dec)
    requires
        outflow_dec(fills, p.id, fills.len() as int).v() > p.currency.v(),
        sf == decimal_difference(outflow_dec(fills, p.id, fills.len() as int), p.currency),
        cost_dec(fills, p.id, fills.len() as int).v() > 0,
        sf.v() > 0,
        red == (if sf.v() <= cost_dec(fills, p.id, fills.len() as int).v() {
            dmin(decimal_quotient(sf, cost_dec(fills, p.id, fills.len() as int)), Dec { mantissa: 1, scale: 0 })
        } else {
            Dec { mantissa: 1, scale: 0 }
        }),
        factor == decimal_difference(Dec { mantissa: 1, scale: 0 }, red),
    ensures
        prune_factor(p, fills) == Some(factor),
{
    reveal(prune_factor);
}

/// A participant that is not short, or has no purchases or shortfall to
/// scale by, has no factor.
proof fn lemma_prune_factor_none(p: Participant, fills: Seq<FinalFill>, short: Option<Dec>)
    requires
        match short {
            Some(sf) => {
                &&& outflow_dec(fills, p.id, fills.len() as int).v() > p.currency.v()
                &&& sf == decimal_difference(outflow_dec(fills, p.id, fills.len() as int), p.currency)
                &&& !(cost_dec(fills, p.id, fills.len() as int).v() > 0 && sf.v() > 0)
            },
            None => outflow_dec(fills, p.id, fills.len() as int).v() <= p.currency.v(),
        },
    ensures
        prune_factor(p, fills) is None,
{
    reveal(prune_factor);
}

/// Adding a round to the history.
proof fn lemma_rounds_push(
    rounds: Seq<Seq<Order>>,
    ps: Seq<Participant>,
    prices: Seq<(ResourceId, Dec)>,
    fills: Seq<FinalFill>,
    next: Seq<Order>,
)
    requires
        rounds.len() >= 1,
        pruned_rounds(rounds, ps, prices),
        round_fills(rounds.last(), prices, fills),
        next == prune_round(rounds.last(), fills, ps, ps.len() as int),
    ensures
        pruned_rounds(rounds.push(next), ps, prices),
        rounds.push(next)[0] == rounds[0],
        rounds.push(next).last() == next,
{
    let nr = rounds.push(next);
    assert forall|r: int| 0 <= r < nr.len() - 1 implies #[trigger] round_step(nr, ps, prices, r) by {
        reveal(round_step);
        if r < rounds.len() - 1 {
            assert(round_step(rounds, ps, prices, r));
            assert(nr[r] == rounds[r]);
            assert(nr[r + 1] == rounds[r + 1]);
        } else {
            assert(nr[r] == rounds.last());
            assert(nr[r + 1] == next);
        }
    }
}

/// A round on the orders `cur` leaves some participant short: with the
/// round's fills, its net outflow exceeds its currency.
#[verifier::opaque]
pub open spec fn round_short(cur: Seq<Order>, ps: Seq<Participant>, prices: Seq<(ResourceId, Dec)>) -> bool {
    exists|fills: Seq<FinalFill>, k: int|
        #![trigger round_fills(cur, prices, fills), ps[k]]
        round_fills(cur, prices, fills) && 0 <= k < ps.len() && outflow_dec(
            fills,
            ps[k].id,
            fills.len() as int,
        ).v() > ps[k].currency.v()
}

proof fn lemma_round_short_intro(
    cur: Seq<Order>,
    ps: Seq<Participant>,
    prices: Seq<(ResourceId, Dec)>,
    fills: Seq<FinalFill>,
    k: int,
)
    requires
        round_fills(cur, prices, fills),
        0 <= k < ps.len(),
        outflow_dec(fills, ps[k].id, fills.len() as int).v() > ps[k].currency.v(),
    ensures
        round_short(cur, ps, prices),
{
    reveal(round_short);
}

/// Each round's orders are the previous round's orders with the bids of its
/// short participants pruned by their factors after that round's fills.
pub open spec fn pruned_rounds(rounds: Seq<Seq<Order>>, ps: Seq<Participant>, prices: Seq<(ResourceId, Dec)>) -> bool {
    forall|r: int| 0 <= r < rounds.len() - 1 ==> #[trigger] round_step(rounds, ps, prices, r)
}

/// Round `r + 1`'s orders are round `r`'s pruned after round `r`'s fills.
#[verifier::opaque]
pub open spec fn round_step(
    rounds: Seq<Seq<Order>>,
    ps: Seq<Participant>,
    prices: Seq<(ResourceId, Dec)>,
    r: int,
) -> bool {
    exists|fills: Seq<FinalFill>|
        #[trigger] round_fills(rounds[r], prices, fills) && rounds[r + 1] == prune_round(
            rounds[r],
            fills,
            ps,
            ps.len() as int,
        )
}

/// The auction's result settles the participants' accounts: one balance per
/// participant, its currency less its net outflow as the auction adds it up,
/// that outflow being within its currency (exactly the currency less the net
/// outflow when the arithmetic is exact); every fill belongs to an order of a
/// known participant, and trades at the recorded clearing price of its
/// resource.
pub open spec fn settles(
    orders: Seq<Order>,
    participants: Seq<Participant>,
    succ: AuctionSuccess,
) -> bool {
    let fills = succ.final_fills@;
    let bal = succ.final_balances@;
    &&& bal.len() == participants.len()
    &&& forall|i: int|
        0 <= i < bal.len() ==> balance_settled(
            participants[i],
            #[trigger] bal[i],
            fills,
            exactly(orders, participants),
        )
    &&& forall|i: int| 0 <= i < fills.len() ==> fill_of_order(orders, #[trigger] fills[i])
    &&& forall|i: int| 0 <= i < fills.len() ==> known(participants, (#[trigger] fills[i]).participant_id)
    &&& forall|i: int| 0 <= i < fills.len() ==> priced(succ.clearing_prices@, #[trigger] fills[i])
}

/// Runs the auction: clears every resource, checks each participant's net
/// outflow against its currency, and while some participant is short, scales
/// down its buy orders by the fraction of its purchases it cannot pay for, and
/// clears again, up to `max_iterations` rounds.
#[verifier::spinoff_prover]
#[verifier::rlimit(40)]
pub fn run_auction(
    orders: Vec<Order>,
    participants: Vec<Participant>,
    max_iterations: u32,
    last_clearing_prices: Vec<(ResourceId, Dec)>,
) -> (r: Result<AuctionSuccess, AuctionError>)
    requires
        auction_ready(orders@, participants@, last_clearing_prices@),
    ensures
        max_iterations == 0 ==> r matches Err(AuctionError::MaxIterationsReached),
        r matches Err(AuctionError::MaxIterationsReached) ==> exists|rounds: Seq<Seq<Order>>|
            #![trigger pruned_rounds(rounds, participants@, last_clearing_prices@)]
            {
                &&& rounds.len() == max_iterations + 1
                &&& rounds[0] == orders@
                &&& pruned_rounds(rounds, participants@, last_clearing_prices@)
                &&& forall|i: int| 0 <= i < max_iterations ==> #[trigger] round_short(
                    rounds[i],
                    participants@,
                    last_clearing_prices@,
                )
            },
        r matches Err(e) ==> (e matches AuctionError::MaxIterationsReached || exists|i: int|
            0 <= i < orders@.len() && !known(participants@, (#[trigger] orders@[i]).participant_id)),
        r matches Ok(succ) ==> settles(orders@, participants@, succ),
        r matches Ok(succ) ==> exists|cur: Seq<Order>, cl: Seq<(ResourceId, ResourceClearing)>|
            cleared_by(orders@, last_clearing_prices@, succ, cur, cl),
        r matches Ok(succ) ==> exists|rounds: Seq<Seq<Order>>, cl: Seq<(ResourceId, ResourceClearing)>|
            #![trigger pruned_rounds(rounds, participants@, last_clearing_prices@), cleared_by(orders@, last_clearing_prices@, succ, rounds.last(), cl)]
            {
                &&& 1 <= rounds.len() <= max_iterations
                &&& rounds[0] == orders@
                &&& pruned_rounds(rounds, participants@, last_clearing_prices@)
                &&& cleared_by(orders@, last_clearing_prices@, succ, rounds.last(), cl)
            },
        r matches Ok(succ) ==> (exactly(orders@, participants@) ==> balance_total(
            succ.final_balances@,
            succ.final_balances@.len() as int,
        ) == currency_total(participants@, participants@.len() as int)),
        max_iterations > 0 && exactly(orders@, participants@) && covered(orders@, participants@)
            && (forall|i: int|
            0 <= i < orders@.len() ==> known(participants@, (#[trigger] orders@[i]).participant_id))
            ==> r is Ok,
{
    let ghost orig = orders@;
    let ghost exact = exactly(orig, participants@);
    let ghost owed = max_iterations > 0 && exact && covered(orig, participants@) && (forall|i: int|
        0 <= i < orig.len() ==> known(participants@, (#[trigger] orig[i]).participant_id));
    let ghost sc = choose|sc: nat| exact_at(orig, participants@, sc);
    let ghost n = orig.len() as int;
    let ghost qb = total_effective(orig);
    let ghost pb = max_abs_price(orig, n);
    let ghost cap = (MAX_MANTISSA - 1) * pow10((28 - sc) as nat);
    let ghost step = qb * pb + 2 * unit();
    let ghost rb = rounded_bound(orig);
    proof {
        lemma_unit();
        lemma_sum_where_nonneg(orig, every(), n);
        lemma_max_nonneg(orig, n);
        lemma_pruned_refl(orig);
        lemma_pow10_positive((28 - sc) as nat);
        assert(trade_bound(orig) >= 0) by (nonlinear_arith)
            requires
                trade_bound(orig) == n * n * qb * pb,
                qb >= 0,
                pb >= 0,
        ;
        assert(qb * pb >= 0 && step >= 0 && rb >= 0) by (nonlinear_arith)
            requires
                qb >= 0,
                pb >= 0,
                step == qb * pb + 2 * unit(),
                unit() > 0,
                rb == n * n * step,
                n >= 0,
        ;
    }
    let mut cur = orders;
    let mut it: u32 = 0;
    let ghost mut rounds: Seq<Seq<Order>> = seq![orig];
    while it < max_iterations
        invariant
            it <= max_iterations,
            rounds.len() == it + 1,
            rounds[0] == orig,
            forall|i: int| 0 <= i < it ==> #[trigger] round_short(rounds[i], participants@, last_clearing_prices@),
            rounds.last() == cur@,
            pruned_rounds(rounds, participants@, last_clearing_prices@),
            owed == (max_iterations > 0 && exact && covered(orig, participants@) && (forall|i: int|
                0 <= i < orig.len() ==> known(participants@, (#[trigger] orig[i]).participant_id))),
            owed ==> it == 0,
            orig == orders@,
            pruned_from(orig, cur@),
            auction_ready(orig, participants@, last_clearing_prices@),
            exact == exactly(orig, participants@),
            exact ==> exact_at(orig, participants@, sc),
            n == orig.len(),
            qb == total_effective(orig),
            pb == max_abs_price(orig, n),
            cap == (MAX_MANTISSA - 1) * pow10((28 - sc) as nat),
            step == qb * pb + 2 * unit(),
            rb == rounded_bound(orig),
            rb == n * n * step,
            qb >= 0,
            pb >= 0,
            qb * pb >= 0,
            step >= 0,
            rb >= 0,
            pow10((28 - sc) as nat) > 0,
            trade_bound(orig) >= 0,
        decreases max_iterations - it,
    {
        let ghost start = cur@;
        proof {
            lemma_pruned_totals(orig, cur@, n);
            lemma_total_prefix(orig, n);
            assert(distinct_order_ids(cur@)) by {
                assert forall|i: int, j: int|
                    0 <= i < cur@.len() && 0 <= j < cur@.len() && i != j implies cur@[i].id
                    != cur@[j].id by {
                    assert(cur@[i].id == orig[i].id);
                    assert(cur@[j].id == orig[j].id);
                }
            }
        }
        // Clear each resource.
        let resources = live_resources(&cur);
        let mut clearings: Vec<(ResourceId, ResourceClearing)> = Vec::new();
        let mut ri: usize = 0;
        while ri < resources.len()
            invariant
                pruned_from(orig, cur@),
                auction_ready(orig, participants@, last_clearing_prices@),
                distinct_order_ids(cur@),
                total_effective(cur@) <= u64::MAX,
                n == orig.len(),
                ri <= resources@.len(),
                resources@.len() <= cur@.len(),
                forall|a: int, b: int|
                    0 <= a < resources@.len() && 0 <= b < resources@.len() && a != b ==> (
                    #[trigger] resources@[a]).0@ != (#[trigger] resources@[b]).0@,
                clearings@.len() <= ri,
                clearings_ok(cur@, clearings@),
                forall|cc: int|
                    0 <= cc < clearings@.len() ==> exists|a: int|
                        0 <= a < ri && (#[trigger] clearings@[cc]).0.0@ == resources@[a].0@,
                resources@.len() == live_names(cur@, cur@.len() as int).len(),
                forall|a: int|
                    0 <= a < resources@.len() ==> (#[trigger] resources@[a]).0@ == live_names(
                        cur@,
                        cur@.len() as int,
                    )[a],
                clears(
                    cur@,
                    last_clearing_prices@,
                    live_names(cur@, cur@.len() as int),
                    ri as int,
                    clearings@,
                ),
            decreases resources@.len() - ri,
        {
            let group = orders_for(&cur, &resources[ri]);
            let last = last_price_for(&last_clearing_prices, &resources[ri]);
            proof {
                assert forall|k: int| 0 <= k < group@.len() implies price_ok(
                    #[trigger] group@[k].limit_price,
                ) by {
                    let j = choose|j: int|
                        0 <= j < cur@.len() && #[trigger] group@[k] == cur@[j] && live(cur@[j])
                            && cur@[j].resource_id.0@ == resources@[ri as int].0@;
                    assert(cur@[j].limit_price == orig[j].limit_price);
                }
                if let Some(l) = last {
                    let i = choose|i: int|
                        0 <= i < last_clearing_prices@.len() && (
                        #[trigger] last_clearing_prices@[i]).0.0@ == resources@[ri as int].0@
                            && last_clearing_prices@[i].1 == l;
                    assert(price_ok(last_clearing_prices@[i].1));
                }
                assert(clearable(group@, last));
            }
            match find_clearing_for_resource(&group, last, &cur) {
                Ok(Some(c)) => {
                    let ghost gs = group@;
                    proof {
                        assert(is_clearing(gs, last, c));
                        let k = choose|k: int|
                            0 <= k < gs.len() && live(gs[k]) && gs[k].limit_price
                                == c.clearing_price;
                        let j = choose|j: int|
                            0 <= j < cur@.len() && #[trigger] gs[k] == cur@[j] && live(cur@[j])
                                && cur@[j].resource_id.0@ == resources@[ri as int].0@;
                        assert(cur@[j].limit_price == c.clearing_price);
                        lemma_fill_list_bound(
                            gs,
                            c.clearing_price.v(),
                            c.matched_volume as int,
                            gs.len() as int,
                        );
                        assert forall|t: int|
                            0 <= t < c.tentative_fills@.len() implies tentative_of(
                            cur@,
                            resources@[ri as int],
                            c.clearing_price,
                            #[trigger] c.tentative_fills@[t],
                        ) by {
                            lemma_fill_list_member(
                                gs,
                                c.clearing_price.v(),
                                c.matched_volume as int,
                                gs.len() as int,
                                t,
                            );
                            let kk = choose|kk: int|
                                0 <= kk < gs.len() && fill_list(
                                    gs,
                                    c.clearing_price.v(),
                                    c.matched_volume as int,
                                    gs.len() as int,
                                )[t].order_id == gs[kk].id && fill_list(
                                    gs,
                                    c.clearing_price.v(),
                                    c.matched_volume as int,
                                    gs.len() as int,
                                )[t].filled_quantity == fill_amount(
                                    gs,
                                    kk,
                                    c.clearing_price.v(),
                                    c.matched_volume as int,
                                ) && fill_amount(
                                    gs,
                                    kk,
                                    c.clearing_price.v(),
                                    c.matched_volume as int,
                                ) > 0;
                            lemma_fill_amount_facts(
                                gs,
                                kk,
                                c.clearing_price.v(),
                                c.matched_volume as int,
                            );
                            let jj = choose|jj: int|
                                0 <= jj < cur@.len() && #[trigger] gs[kk] == cur@[jj] && live(
                                    cur@[jj],
                                ) && cur@[jj].resource_id.0@ == resources@[ri as int].0@;
                            assert(cur@[jj] == gs[kk]);
                        }
                    }
                    proof {
                        lemma_fill_list_distinct(
                            gs,
                            c.clearing_price.v(),
                            c.matched_volume as int,
                            gs.len() as int,
                        );
                    }
                    let entry = (resources[ri].clone(), c);
                    let ghost before_push = clearings@;
                    clearings.push(entry);
                    proof {
                        assert(clearings@.drop_last() =~= before_push);
                        assert(clearings@.last() == entry);
                        assert(resources@[ri as int].0@ == live_names(cur@, cur@.len() as int)[ri as int]);
                        assert(clears(
                            cur@,
                            last_clearing_prices@,
                            live_names(cur@, cur@.len() as int),
                            ri + 1,
                            clearings@,
                        ));
                        assert forall|c1: int, c2: int|
                            0 <= c1 < clearings@.len() && 0 <= c2 < clearings@.len() && c1 != c2 implies (
                            #[trigger] clearings@[c1]).0.0@ != (#[trigger] clearings@[c2]).0.0@ by {
                            if c1 < before_push.len() && c2 < before_push.len() {
                                assert(clearings@[c1] == before_push[c1]);
                                assert(clearings@[c2] == before_push[c2]);
                            } else if c1 < before_push.len() {
                                assert(clearings@[c1] == before_push[c1]);
                                let a = choose|a: int|
                                    0 <= a < ri && (#[trigger] before_push[c1]).0.0@ == resources@[a].0@;
                                assert(resources@[a].0@ != resources@[ri as int].0@);
                            } else if c2 < before_push.len() {
                                assert(clearings@[c2] == before_push[c2]);
                                let a = choose|a: int|
                                    0 <= a < ri && (#[trigger] before_push[c2]).0.0@ == resources@[a].0@;
                                assert(resources@[a].0@ != resources@[ri as int].0@);
                            }
                        }
                        assert forall|cc: int, a: int, b: int|
                            0 <= cc < clearings@.len() && 0 <= a < clearings@[cc].1.tentative_fills@.len() && 0 <= b
                                < clearings@[cc].1.tentative_fills@.len() && a != b implies (
                            #[trigger] clearings@[cc].1.tentative_fills@[a]).order_id != (
                            #[trigger] clearings@[cc].1.tentative_fills@[b]).order_id by {
                            if cc < before_push.len() {
                                assert(clearings@[cc] == before_push[cc]);
                            }
                        }
                        assert forall|cc: int| 0 <= cc < clearings@.len() implies exists|a: int|
                            0 <= a < ri + 1 && (#[trigger] clearings@[cc]).0.0@ == resources@[a].0@ by {
                            if cc < before_push.len() {
                                assert(clearings@[cc] == before_push[cc]);
                                let a = choose|a: int|
                                    0 <= a < ri && (#[trigger] before_push[cc]).0.0@ == resources@[a].0@;
                            }
                        }
                        assert(clearings@[clearings@.len() - 1] == entry);
                        assert forall|cc: int|
                            0 <= cc < clearings@.len() implies exists|j: int|
                            0 <= j < cur@.len() && (#[trigger] cur@[j]).limit_price == (
                            #[trigger] clearings@[cc]).1.clearing_price by {
                            if cc < before_push.len() {
                                assert(clearings@[cc] == before_push[cc]);
                            }
                        }
                        assert forall|cc: int, t: int|
                            0 <= cc < clearings@.len() && 0 <= t
                                < clearings@[cc].1.tentative_fills@.len() implies tentative_of(
                            cur@,
                            clearings@[cc].0,
                            clearings@[cc].1.clearing_price,
                            #[trigger] clearings@[cc].1.tentative_fills@[t],
                        ) by {
                            if cc < before_push.len() {
                                assert(clearings@[cc] == before_push[cc]);
                            }
                        }
                        assert forall|cc: int|
                            0 <= cc < clearings@.len() implies (
                            #[trigger] clearings@[cc]).1.tentative_fills@.len() <= cur@.len() by {
                            if cc < before_push.len() {
                                assert(clearings@[cc] == before_push[cc]);
                            }
                        }
                    }
                },
                Ok(None) => {
                    proof {
                        assert(resources@[ri as int].0@ == live_names(cur@, cur@.len() as int)[ri as int]);
                        assert(no_trade(group@));
                    }
                },
                Err(e) => {
                    proof {
                        let gs = group@;
                        let p = choose|p: Dec|
                            optimal_price(gs, last, p) && fill_missing_from(gs, p, cur@);
                        let i = choose|i: int|
                            0 <= i < gs.len() && fill_amount(gs, i, p.v(), volume(gs, p.v())) > 0
                                && !has_order(cur@, gs[i].id);
                        let j = choose|j: int|
                            0 <= j < cur@.len() && #[trigger] gs[i] == cur@[j] && live(cur@[j])
                                && cur@[j].resource_id.0@ == resources@[ri as int].0@;
                        assert(has_order(cur@, gs[i].id));
                    }
                    return Err(AuctionError::InternalError(e));
                },
            }
            ri = ri + 1;
        }
        let fills = match make_fills(&cur, &clearings) {
            Ok(v) => v,
            Err(e) => {
                return Err(AuctionError::InternalError(e));
            },
        };
        proof {
            assert forall|i: int| 0 <= i < fills@.len() implies {
                let f = #[trigger] fills@[i];
                &&& f.price.wf()
                &&& (exact ==> f.price.scale <= sc)
                &&& abs_int(f.price.v()) <= pb
                &&& f.filled_quantity <= qb
            } by {
                let f = fills@[i];
                assert(fill_of_order(cur@, f));
                let j = choose|j: int|
                    0 <= j < cur@.len() && {
                        let o = #[trigger] cur@[j];
                        &&& o.id == f.order_id
                        &&& o.participant_id == f.participant_id
                        &&& o.resource_id.0@ == f.resource_id.0@
                        &&& o.order_type == f.order_type
                        &&& 0 < f.filled_quantity <= o.effective_quantity
                        &&& (o.order_type == OrderType::Bid ==> f.price.v() <= o.limit_price.v())
                        &&& (o.order_type == OrderType::Ask ==> f.price.v() >= o.limit_price.v())
                    };
                lemma_one_le_total(orig, j);
                assert(from_clearing(clearings@, f));
                let c = choose|c: int|
                    0 <= c < clearings@.len() && f.price == (#[trigger] clearings@[c]).1.clearing_price
                        && f.resource_id.0@ == clearings@[c].0.0@;
                let jj = choose|jj: int|
                    0 <= jj < cur@.len() && (#[trigger] cur@[jj]).limit_price == clearings@[c].1.clearing_price;
                assert(cur@[jj].limit_price == orig[jj].limit_price);
                lemma_price_le_max(orig, jj, n);
                if exact {
                    assert(orig[jj].limit_price.scale <= sc);
                }
            }
            assert(fills@.len() * qb * pb <= trade_bound(orig)) by (nonlinear_arith)
                requires
                    fills@.len() <= n * n,
                    qb >= 0,
                    pb >= 0,
                    trade_bound(orig) == n * n * qb * pb,
            ;
            assert(fills@.len() * step <= rb) by (nonlinear_arith)
                requires
                    fills@.len() <= n * n,
                    step >= 0,
                    rb == n * n * step,
            ;
        }
        // Each participant's totals.
        let mut outs: Vec<Dec> = Vec::new();
        let mut costs: Vec<Dec> = Vec::new();
        let mut touched: Vec<bool> = Vec::new();
        let mut pi: usize = 0;
        while pi < participants.len()
            invariant
                exact ==> exact_at(orig, participants@, sc),
                in_range(orig, participants@),
                cap == (MAX_MANTISSA - 1) * pow10((28 - sc) as nat),
                step == qb * pb + 2 * unit(),
                rb == rounded_bound(orig),
                qb >= 0,
                pb >= 0,
                fills@.len() * qb * pb <= trade_bound(orig),
                fills@.len() * step <= rb,
                forall|i: int|
                    0 <= i < fills@.len() ==> {
                        let f = #[trigger] fills@[i];
                        &&& f.price.wf()
                        &&& (exact ==> f.price.scale <= sc)
                        &&& abs_int(f.price.v()) <= pb
                        &&& f.filled_quantity <= qb
                    },
                trade_bound(orig) >= 0,
                pi <= participants@.len(),
                outs@.len() == pi,
                costs@.len() == pi,
                touched@.len() == pi,
                forall|k: int|
                    0 <= k < pi ==> {
                        &&& (#[trigger] outs@[k]) == outflow_dec(fills@, participants@[k].id, fills@.len() as int)
                        &&& costs@[k] == cost_dec(fills@, participants@[k].id, fills@.len() as int)
                        &&& abs_int(outs@[k].v() - net_outflow(fills@, participants@[k].id, fills@.len() as int))
                            <= fills@.len() * unit()
                        &&& outs@[k].wf()
                        &&& abs_int(outs@[k].v()) <= rb
                        &&& costs@[k].wf()
                        &&& abs_int(costs@[k].v()) <= rb
                        &&& touched@[k] == has_fill(fills@, participants@[k].id, fills@.len() as int)
                        &&& exact ==> {
                            &&& outs@[k].scale <= sc
                            &&& outs@[k].v() == net_outflow(fills@, participants@[k].id, fills@.len() as int)
                            &&& abs_int(outs@[k].v()) <= trade_bound(orig)
                            &&& costs@[k].scale <= sc
                            &&& abs_int(costs@[k].v()) <= trade_bound(orig)
                        }
                    },
            decreases participants@.len() - pi,
        {
            proof {
                assert(participants@[pi as int].currency.wf());
                assert(abs_int(participants@[pi as int].currency.v()) + rb <= limit());
                if exact {
                    assert(abs_int(participants@[pi as int].currency.v()) + trade_bound(orig) <= cap);
                }
            }
            let t = participant_totals(
                &fills,
                participants[pi].id,
                Ghost(exact),
                Ghost(sc),
                Ghost(qb),
                Ghost(pb),
            );
            let ghost (o0, c0, t0) = (outs@, costs@, touched@);
            outs.push(t.0);
            costs.push(t.1);
            touched.push(t.2);
            proof {
                assert forall|k: int| 0 <= k < pi + 1 implies {
                    &&& (#[trigger] outs@[k]) == outflow_dec(fills@, participants@[k].id, fills@.len() as int)
                    &&& costs@[k] == cost_dec(fills@, participants@[k].id, fills@.len() as int)
                    &&& abs_int(outs@[k].v() - net_outflow(fills@, participants@[k].id, fills@.len() as int))
                        <= fills@.len() * unit()
                    &&& outs@[k].wf()
                    &&& abs_int(outs@[k].v()) <= rb
                    &&& costs@[k].wf()
                    &&& abs_int(costs@[k].v()) <= rb
                    &&& touched@[k] == has_fill(fills@, participants@[k].id, fills@.len() as int)
                    &&& exact ==> {
                        &&& outs@[k].scale <= sc
                        &&& outs@[k].v() == net_outflow(fills@, participants@[k].id, fills@.len() as int)
                        &&& abs_int(outs@[k].v()) <= trade_bound(orig)
                        &&& costs@[k].scale <= sc
                        &&& abs_int(costs@[k].v()) <= trade_bound(orig)
                    }
                } by {
                    if k < pi {
                        assert(outs@[k] == o0[k]);
                        assert(costs@[k] == c0[k]);
                        assert(touched@[k] == t0[k]);
                    }
                }
            }
            pi = pi + 1;
        }
        proof {
            if owed {
                assert forall|k: int| 0 <= k < participants@.len() implies (#[trigger] outs@[k]).v()
                    <= participants@[k].currency.v() by {
                    let fl = fills@;
                    assert forall|i: int| 0 <= i < fl.len() implies #[trigger] witnessed(orig, fl[i], Set::empty()) by {
                        assert(fill_of_order(cur@, fl[i]));
                        let j = choose|j: int|
                            0 <= j < cur@.len() && {
                                let o = #[trigger] cur@[j];
                                &&& o.id == fl[i].order_id
                                &&& o.participant_id == fl[i].participant_id
                                &&& o.resource_id.0@ == fl[i].resource_id.0@
                                &&& o.order_type == fl[i].order_type
                                &&& 0 < fl[i].filled_quantity <= o.effective_quantity
                                &&& (o.order_type == OrderType::Bid ==> fl[i].price.v() <= o.limit_price.v())
                                &&& (o.order_type == OrderType::Ask ==> fl[i].price.v() >= o.limit_price.v())
                            };
                        assert(fits(orig, fl[i], j));
                    }
                    lemma_outflow_within(orig, fl, participants@[k].id, Set::empty(), fl.len() as int);
                }
            }
        }
        // Fills of participants outside the list.
        let unknown = !all_known(&fills, &participants);
        // Participants whose net outflow exceeds their currency.
        proof {
            assert forall|k: int| 0 <= k < participants@.len() implies (#[trigger] costs@[k]).wf() by {
                assert(outs@[k] == outflow_dec(fills@, participants@[k].id, fills@.len() as int));
            }
        }
        let mut shortfalls: Vec<Option<Dec>> = Vec::new();
        let mut any_short = false;
        let mut si: usize = 0;
        while si < participants.len()
            invariant
                exact ==> exact_at(orig, participants@, sc),
                in_range(orig, participants@),
                rb == rounded_bound(orig),
                trade_bound(orig) >= 0,
                si <= participants@.len(),
                outs@.len() == participants@.len(),
                costs@.len() == participants@.len(),
                touched@.len() == participants@.len(),
                forall|k: int| 0 <= k < participants@.len() ==> (#[trigger] costs@[k]).wf(),
                shortfalls@.len() == si,
                forall|k: int|
                    0 <= k < participants@.len() ==> {
                        &&& (#[trigger] outs@[k]) == outflow_dec(fills@, participants@[k].id, fills@.len() as int)
                        &&& costs@[k] == cost_dec(fills@, participants@[k].id, fills@.len() as int)
                        &&& abs_int(outs@[k].v() - net_outflow(fills@, participants@[k].id, fills@.len() as int))
                            <= fills@.len() * unit()
                        &&& outs@[k].wf()
                        &&& abs_int(outs@[k].v()) <= rb
                        &&& costs@[k].wf()
                        &&& touched@[k] == has_fill(fills@, participants@[k].id, fills@.len() as int)
                        &&& exact ==> {
                            &&& outs@[k].scale <= sc
                            &&& outs@[k].v() == net_outflow(fills@, participants@[k].id, fills@.len() as int)
                            &&& abs_int(outs@[k].v()) <= trade_bound(orig)
                        }
                    },
                forall|k: int|
                    0 <= k < si ==> match #[trigger] shortfalls@[k] {
                        Some(sf) => {
                            &&& outs@[k].v() > participants@[k].currency.v()
                            &&& sf.wf()
                            &&& sf == decimal_difference(outs@[k], participants@[k].currency)
                        },
                        None => outs@[k].v() <= participants@[k].currency.v(),
                    },
                !any_short ==> forall|k: int| 0 <= k < si ==> (#[trigger] shortfalls@[k]) is None,
                any_short ==> exists|k: int| 0 <= k < si && (#[trigger] shortfalls@[k]) is Some,
                owed ==> !any_short,
                owed ==> forall|k: int| 0 <= k < participants@.len() ==> (#[trigger] outs@[k]).v()
                    <= participants@[k].currency.v(),
                !unknown <==> forall|i: int|
                    0 <= i < fills@.len() ==> known(participants@, (#[trigger] fills@[i]).participant_id),
                forall|i: int| 0 <= i < fills@.len() ==> from_clearing(clearings@, #[trigger] fills@[i]),
                forall|i: int| 0 <= i < fills@.len() ==> fill_of_order(cur@, #[trigger] fills@[i]),
            decreases participants@.len() - si,
        {
            let c = participants[si].currency;
            let o = outs[si];
            let ghost old_sf = shortfalls@;
            if o.gt(&c) {
                proof {
                    assert(participants@[si as int].currency.wf());
                    assert(abs_int(c.v()) + rb <= limit());
                }
                let sf = dec_sub(o, c);
                shortfalls.push(Some(sf));
                any_short = true;
            } else {
                shortfalls.push(None);
            }
            proof {
                assert forall|k: int| 0 <= k < si implies #[trigger] shortfalls@[k] == old_sf[k] by {}
                if any_short {
                    if shortfalls@[si as int] is Some {
                        assert(0 <= si < si + 1 && shortfalls@[si as int] is Some);
                    } else {
                        let k = choose|k: int| 0 <= k < si && (#[trigger] old_sf[k]) is Some;
                        assert(shortfalls@[k] == old_sf[k]);
                    }
                }
            }
            si = si + 1;
        }
        if !any_short {
            if unknown {
                proof {
                    let i = choose|i: int|
                        0 <= i < fills@.len() && !known(participants@, (#[trigger] fills@[i]).participant_id);
                    assert(fill_of_order(cur@, fills@[i]));
                    let j = choose|j: int|
                        0 <= j < cur@.len() && {
                            let o = #[trigger] cur@[j];
                            &&& o.id == fills@[i].order_id
                            &&& o.participant_id == fills@[i].participant_id
                            &&& o.resource_id.0@ == fills@[i].resource_id.0@
                            &&& o.order_type == fills@[i].order_type
                            &&& 0 < fills@[i].filled_quantity <= o.effective_quantity
                            &&& (o.order_type == OrderType::Bid ==> fills@[i].price.v() <= o.limit_price.v())
                            &&& (o.order_type == OrderType::Ask ==> fills@[i].price.v() >= o.limit_price.v())
                        };
                    assert(orig[j].participant_id == cur@[j].participant_id);
                    assert(!known(participants@, orig[j].participant_id));
                }
                return Err(
                    AuctionError::InternalError(
                        String::from_str("Participant not found for final balance update"),
                    ),
                );
            }
            // Settle.
            proof {
                assert forall|k: int| 0 <= k < participants@.len() implies {
                    let p = #[trigger] participants@[k];
                    &&& p.currency.wf()
                    &&& abs_int(p.currency.v()) + rb <= limit()
                    &&& outs@[k] == outflow_dec(fills@, p.id, fills@.len() as int)
                    &&& outs@[k].wf()
                    &&& abs_int(outs@[k].v()) <= rb
                    &&& outs@[k].v() <= p.currency.v()
                    &&& abs_int(outs@[k].v() - net_outflow(fills@, p.id, fills@.len() as int)) <= fills@.len() * unit()
                    &&& touched@[k] == has_fill(fills@, p.id, fills@.len() as int)
                    &&& exact ==> {
                        &&& p.currency.scale <= sc
                        &&& abs_int(p.currency.v()) + trade_bound(orig) <= (MAX_MANTISSA - 1) * pow10((28 - sc) as nat)
                        &&& outs@[k].scale <= sc
                        &&& outs@[k].v() == net_outflow(fills@, p.id, fills@.len() as int)
                        &&& abs_int(outs@[k].v()) <= trade_bound(orig)
                    }
                } by {
                    assert(outs@[k].wf());
                    assert(shortfalls@[k] is None);
                }
            }
            let balances = settle_balances(
                &participants,
                &outs,
                &touched,
                Ghost(fills@),
                Ghost(exact),
                Ghost(sc),
                Ghost(rb),
                Ghost(trade_bound(orig)),
            );
            let prices = clearing_price_list(&clearings);
            let succ = AuctionSuccess {
                final_fills: fills,
                final_balances: balances,
                clearing_prices: prices,
            };
            proof {
                let fl = succ.final_fills@;
                assert forall|i: int| 0 <= i < fl.len() implies fill_of_order(
                    orig,
                    #[trigger] fl[i],
                ) by {
                    let f = fl[i];
                    assert(fill_of_order(cur@, f));
                    let j = choose|j: int|
                        0 <= j < cur@.len() && {
                            let o = #[trigger] cur@[j];
                            &&& o.id == f.order_id
                            &&& o.participant_id == f.participant_id
                            &&& o.resource_id.0@ == f.resource_id.0@
                            &&& o.order_type == f.order_type
                            &&& 0 < f.filled_quantity <= o.effective_quantity
                            &&& (o.order_type == OrderType::Bid ==> f.price.v()
                                <= o.limit_price.v())
                            &&& (o.order_type == OrderType::Ask ==> f.price.v()
                                >= o.limit_price.v())
                        };
                    assert(orig[j].id == cur@[j].id);
                    assert(orig[j].participant_id == cur@[j].participant_id);
                    assert(orig[j].resource_id == cur@[j].resource_id);
                    assert(orig[j].order_type == cur@[j].order_type);
                    assert(orig[j].limit_price == cur@[j].limit_price);
                    assert(orig[j].effective_quantity >= cur@[j].effective_quantity);
                }
                assert forall|i: int| 0 <= i < fl.len() implies priced(
                    succ.clearing_prices@,
                    #[trigger] fl[i],
                ) by {
                    assert(from_clearing(clearings@, fl[i]));
                    let c = choose|c: int|
                        0 <= c < clearings@.len() && fl[i].price == (
                        #[trigger] clearings@[c]).1.clearing_price && fl[i].resource_id.0@
                            == clearings@[c].0.0@;
                    assert(succ.clearing_prices@[c].0 == clearings@[c].0);
                    assert(succ.clearing_prices@[c].1 == fl[i].price);
                }
                assert(cleared_by(orig, last_clearing_prices@, succ, cur@, clearings@));
                if exact {
                    assert(balance_total(succ.final_balances@, succ.final_balances@.len() as int)
                        == currency_total(participants@, participants@.len() as int)) by {
                        law_auction_conserves_money(orig, participants@, last_clearing_prices@, succ, cur@, clearings@);
                    }
                }
                assert(pruned_rounds(rounds, participants@, last_clearing_prices@));
                assert(orig == orders@);
                assert(exists|c: Seq<Order>, l: Seq<(ResourceId, ResourceClearing)>| cleared_by(orders@, last_clearing_prices@, succ, c, l));
            }
            return Ok(succ);
        }
        // Scale down the purchases of each short participant.
        proof {
            assert(cur@ == start);
            lemma_round_fills_intro(start, last_clearing_prices@, fills@, clearings@);
            lemma_prune_round_zero(start, fills@, participants@);
        }
        let mut xi: usize = 0;
        while xi < participants.len()
            invariant
                cur@ == prune_round(start, fills@, participants@, xi as int),
                forall|k: int|
                    0 <= k < participants@.len() ==> {
                        &&& (#[trigger] outs@[k]) == outflow_dec(fills@, participants@[k].id, fills@.len() as int)
                        &&& costs@[k] == cost_dec(fills@, participants@[k].id, fills@.len() as int)
                        &&& match shortfalls@[k] {
                            Some(sf) => {
                                &&& outs@[k].v() > participants@[k].currency.v()
                                &&& sf == decimal_difference(outs@[k], participants@[k].currency)
                            },
                            None => outs@[k].v() <= participants@[k].currency.v(),
                        }
                    },
                pruned_from(orig, cur@),
                xi <= participants@.len(),
                costs@.len() == participants@.len(),
                shortfalls@.len() == participants@.len(),
                forall|k: int| 0 <= k < participants@.len() ==> (#[trigger] costs@[k]).wf(),
                forall|k: int|
                    0 <= k < participants@.len() ==> match #[trigger] shortfalls@[k] {
                        Some(sf) => sf.wf(),
                        None => true,
                    },
            decreases participants@.len() - xi,
        {
            if let Some(sf) = shortfalls[xi] {
                let cost = costs[xi];
                let zero = Dec::zero();
                if cost.gt(&zero) && sf.gt(&zero) {
                    // The share of the purchases that cannot be paid for, at
                    // most all of them.
                    let red = if sf.le(&cost) {
                        proof {
                            assert(abs_int(sf.v()) <= (MAX_MANTISSA - 1) * abs_int(cost.v()))
                                by (nonlinear_arith)
                                requires
                                    0 < sf.v() <= cost.v(),
                            ;
                        }
                        let q = dec_div(sf, cost);
                        proof {
                            lemma_v_sign(q);
                            lemma_unit();
                            let l = q.ulp();
                            assert(2 * q.v() * cost.v() >= -cost.v() * l) by (nonlinear_arith)
                                requires
                                    2 * abs_int(q.v() * cost.v() - sf.v() * unit()) <= abs_int(
                                        cost.v(),
                                    ) * l,
                                    sf.v() > 0,
                                    cost.v() > 0,
                                    unit() > 0,
                            ;
                            assert(2 * q.v() >= -l) by (nonlinear_arith)
                                requires
                                    2 * q.v() * cost.v() >= -cost.v() * l,
                                    cost.v() > 0,
                            ;
                            assert(q.mantissa >= 0) by (nonlinear_arith)
                                requires
                                    2 * q.v() >= -l,
                                    q.v() == q.mantissa * l,
                                    l > 0,
                            ;
                        }
                        q.min(Dec::one())
                    } else {
                        Dec::one()
                    };
                    proof {
                        lemma_v_sign(red);
                        lemma_unit();
                        lemma_pow10_monotone(0, (28 - red.scale) as nat);
                        assert(unit() <= MAX_MANTISSA * pow10((28 - red.scale) as nat))
                            by (nonlinear_arith)
                            requires
                                pow10((28 - red.scale) as nat) >= 1,
                                unit() < MAX_MANTISSA,
                        ;
                        assert(abs_int(red.v()) <= MAX_MANTISSA * pow10((28 - red.scale) as nat))
                            by (nonlinear_arith)
                            requires
                                red.v() == red.mantissa * pow10((28 - red.scale) as nat),
                                -MAX_MANTISSA <= red.mantissa <= MAX_MANTISSA,
                                pow10((28 - red.scale) as nat) > 0,
                        ;
                    }
                    let factor = dec_sub(Dec::one(), red);
                    let ghost c_xi = cur@;
                    proof {
                        assert(shortfalls@[xi as int] == Some(sf));
                        assert(outs@[xi as int] == outflow_dec(fills@, participants@[xi as int].id, fills@.len() as int));
                        lemma_prune_factor_some(participants@[xi as int], fills@, sf, red, factor);
                        lemma_prune_bids_next(c_xi, fills@, participants@[xi as int].id, factor, 0);
                    }
                    let mut fi: usize = 0;
                    while fi < fills.len()
                        invariant
                            cur@ == prune_bids(c_xi, fills@, participants@[xi as int].id, factor, fi as int),
                            pruned_from(orig, cur@),
                            xi < participants@.len(),
                            factor.wf(),
                            0 <= factor.v() <= unit(),
                            fi <= fills@.len(),
                        decreases fills@.len() - fi,
                    {
                        if fills[fi].participant_id == participants[xi].id && fills[fi].order_type
                            == OrderType::Bid {
                            let ghost before_prune = cur@;
                            match prune_order(&mut cur, fills[fi].order_id, &factor) {
                                Ok(()) => {},
                                Err(e) => {
                                    return Err(AuctionError::InternalError(e));
                                },
                            }
                            proof {
                                lemma_pruned_trans(orig, before_prune, cur@);
                                lemma_prune_first(before_prune, cur@, fills@[fi as int].order_id, factor);
                            }
                        }
                        proof {
                            lemma_prune_bids_next(c_xi, fills@, participants@[xi as int].id, factor, fi as int);
                        }
                        fi = fi + 1;
                    }
                    proof {
                        lemma_prune_round_next(start, fills@, participants@, xi as int);
                    }
                } else {
                    proof {
                        assert(outs@[xi as int] == outflow_dec(fills@, participants@[xi as int].id, fills@.len() as int));
                        assert(costs@[xi as int] == cost_dec(fills@, participants@[xi as int].id, fills@.len() as int));
                        lemma_prune_factor_none(participants@[xi as int], fills@, shortfalls@[xi as int]);
                        lemma_prune_round_next(start, fills@, participants@, xi as int);
                    }
                }
            } else {
                proof {
                    assert(outs@[xi as int] == outflow_dec(fills@, participants@[xi as int].id, fills@.len() as int));
                    lemma_prune_factor_none(participants@[xi as int], fills@, shortfalls@[xi as int]);
                    lemma_prune_round_next(start, fills@, participants@, xi as int);
                }
            }
            xi = xi + 1;
        }
        proof {
            let k = choose|k: int| 0 <= k < participants@.len() && (#[trigger] shortfalls@[k]) is Some;
            assert(outs@[k] == outflow_dec(fills@, participants@[k].id, fills@.len() as int));
            lemma_round_short_intro(start, participants@, last_clearing_prices@, fills@, k);
            let old_rounds = rounds;
            lemma_rounds_push(rounds, participants@, last_clearing_prices@, fills@, cur@);
            rounds = rounds.push(cur@);
            assert forall|i: int| 0 <= i < it + 1 implies #[trigger] round_short(rounds[i], participants@, last_clearing_prices@) by {
                if i < it {
                    assert(rounds[i] == old_rounds[i]);
                    assert(round_short(old_rounds[i], participants@, last_clearing_prices@));
                } else {
                    assert(rounds[i] == start);
                }
            }
        }
        it = it + 1;
    }
    proof {
        assert(pruned_rounds(rounds, participants@, last_clearing_prices@));
    }
    Err(AuctionError::MaxIterationsReached)
}

/// The participant's balance after settlement: its currency less its net
/// outflow as the auction added it up, when it traded, else its currency; the
/// outflow is within its currency; and when the arithmetic is exact, the
/// balance is exactly the currency less the net outflow.
pub open spec fn balance_settled(p: Participant, b: FinalBalance, fills: Seq<FinalFill>, exact: bool) -> bool {
    let n = fills.len() as int;
    &&& b.participant_id == p.id
    &&& b.final_currency.wf()
    &&& b.final_currency == (if has_fill(fills, p.id, n) {
        decimal_difference(p.currency, outflow_dec(fills, p.id, n))
    } else {
        p.currency
    })
    &&& outflow_dec(fills, p.id, n).v() <= p.currency.v()
    &&& 2 * abs_int(b.final_currency.v() - (p.currency.v() - outflow_dec(fills, p.id, n).v())) <= unit()
    &&& abs_int(outflow_dec(fills, p.id, n).v() - net_outflow(fills, p.id, n)) <= n * unit()
    &&& has_fill(fills, p.id, n) ==> b.final_currency.v() >= 0
    &&& exact ==> {
        &&& b.final_currency.v() == p.currency.v() - net_outflow(fills, p.id, n)
        &&& net_outflow(fills, p.id, n) <= p.currency.v()
    }
}

proof fn lemma_no_fill_dec(fills: Seq<FinalFill>, id: ParticipantId, n: int)
    requires
        0 <= n <= fills.len(),
        !has_fill(fills, id, n),
    ensures
        outflow_dec(fills, id, n) == (Dec { mantissa: 0, scale: 0 }),
    decreases n,
{
    if n > 0 {
        assert(fills[n - 1].participant_id != id);
        assert(!has_fill(fills, id, n - 1)) by {
            if has_fill(fills, id, n - 1) {
                let w = choose|w: int| 0 <= w < n - 1 && w < fills.len() && (#[trigger] fills[w]).participant_id == id;
                assert(0 <= w < n && fills[w].participant_id == id);
            }
        }
        lemma_no_fill_dec(fills, id, n - 1);
    }
}

/// The final balance of each participant: its currency less its net outflow
/// when it traded, else its currency unchanged.
fn settle_balances(
    participants: &Vec<Participant>,
    outs: &Vec<Dec>,
    touched: &Vec<bool>,
    Ghost(fills): Ghost<Seq<FinalFill>>,
    Ghost(exact): Ghost<bool>,
    Ghost(sc): Ghost<nat>,
    Ghost(tb): Ghost<int>,
    Ghost(te): Ghost<int>,
) -> (r: Vec<FinalBalance>)
    requires
        tb >= 0,
        exact ==> sc <= 28 && te >= 0,
        outs@.len() == participants@.len(),
        touched@.len() == participants@.len(),
        forall|k: int|
            0 <= k < participants@.len() ==> {
                let p = #[trigger] participants@[k];
                &&& p.currency.wf()
                &&& abs_int(p.currency.v()) + tb <= limit()
                &&& outs@[k] == outflow_dec(fills, p.id, fills.len() as int)
                &&& outs@[k].wf()
                &&& abs_int(outs@[k].v()) <= tb
                &&& outs@[k].v() <= p.currency.v()
                &&& abs_int(outs@[k].v() - net_outflow(fills, p.id, fills.len() as int)) <= fills.len() * unit()
                &&& touched@[k] == has_fill(fills, p.id, fills.len() as int)
                &&& exact ==> {
                    &&& p.currency.scale <= sc
                    &&& abs_int(p.currency.v()) + te <= (MAX_MANTISSA - 1) * pow10((28 - sc) as nat)
                    &&& outs@[k].scale <= sc
                    &&& outs@[k].v() == net_outflow(fills, p.id, fills.len() as int)
                    &&& abs_int(outs@[k].v()) <= te
                }
            },
    ensures
        r@.len() == participants@.len(),
        forall|k: int| 0 <= k < r@.len() ==> balance_settled(participants@[k], #[trigger] r@[k], fills, exact),
{
    let mut balances: Vec<FinalBalance> = Vec::new();
    let mut bi: usize = 0;
    while bi < participants.len()
        invariant
            tb >= 0,
            exact ==> sc <= 28 && te >= 0,
            outs@.len() == participants@.len(),
            touched@.len() == participants@.len(),
            forall|k: int|
                0 <= k < participants@.len() ==> {
                    let p = #[trigger] participants@[k];
                    &&& p.currency.wf()
                    &&& abs_int(p.currency.v()) + tb <= limit()
                    &&& outs@[k] == outflow_dec(fills, p.id, fills.len() as int)
                    &&& outs@[k].wf()
                    &&& abs_int(outs@[k].v()) <= tb
                    &&& outs@[k].v() <= p.currency.v()
                    &&& abs_int(outs@[k].v() - net_outflow(fills, p.id, fills.len() as int)) <= fills.len() * unit()
                    &&& touched@[k] == has_fill(fills, p.id, fills.len() as int)
                    &&& exact ==> {
                        &&& p.currency.scale <= sc
                        &&& abs_int(p.currency.v()) + te <= (MAX_MANTISSA - 1) * pow10((28 - sc) as nat)
                        &&& outs@[k].scale <= sc
                        &&& outs@[k].v() == net_outflow(fills, p.id, fills.len() as int)
                        &&& abs_int(outs@[k].v()) <= te
                    }
                },
            bi <= participants@.len(),
            balances@.len() == bi,
            forall|k: int| 0 <= k < bi ==> balance_settled(participants@[k], #[trigger] balances@[k], fills, exact),
        decreases participants@.len() - bi,
    {
        let p = participants[bi];
        let o = outs[bi];
        proof {
            assert(participants@[bi as int] == p);
        }
        let fc = if touched[bi] {
            proof {
                if exact {
                    lemma_exact_difference(p.currency, o, sc);
                }
            }
            let d = dec_sub(p.currency, o);
            proof {
                lemma_v_sign(d);
                lemma_rounded_nonneg(d, p.currency.v() - o.v());
            }
            d
        } else {
            proof {
                lemma_no_fill_zero(fills, p.id, fills.len() as int);
                lemma_no_fill_dec(fills, p.id, fills.len() as int);
            }
            p.currency
        };
        let ghost old_bal = balances@;
        balances.push(FinalBalance { participant_id: p.id, final_currency: fc });
        proof {
            assert(balance_settled(participants@[bi as int], balances@[bi as int], fills, exact));
            assert forall|k: int| 0 <= k < bi implies #[trigger] balances@[k] == old_bal[k] by {}
        }
        bi = bi + 1;
    }
    balances
}

/// The clearing price of each cleared resource.
fn clearing_price_list(clearings: &Vec<(ResourceId, ResourceClearing)>) -> (r: Vec<(ResourceId, Dec)>)
    ensures
        r@.len() == clearings@.len(),
        forall|c: int|
            0 <= c < r@.len() ==> (#[trigger] r@[c]).0 == clearings@[c].0 && r@[c].1
                == clearings@[c].1.clearing_price,
{
    let mut prices: Vec<(ResourceId, Dec)> = Vec::new();
    let mut ci: usize = 0;
    while ci < clearings.len()
        invariant
            ci <= clearings@.len(),
            prices@.len() == ci,
            forall|c: int|
                0 <= c < ci ==> (#[trigger] prices@[c]).0 == clearings@[c].0 && prices@[c].1
                    == clearings@[c].1.clearing_price,
        decreases clearings@.len() - ci,
    {
        prices.push((clearings[ci].0.clone(), clearings[ci].1.clearing_price));
        ci = ci + 1;
    }
    prices
}

/// Whether the list records the fill's price for the fill's resource.
pub open spec fn priced(prices: Seq<(ResourceId, Dec)>, f: FinalFill) -> bool {
    exists|c: int|
        0 <= c < prices.len() && (#[trigger] prices[c]).0.0@ == f.resource_id.0@ && prices[c].1
            == f.price
}

/// Whether some participant in the list has the id.
pub open spec fn known(participants: Seq<Participant>, id: ParticipantId) -> bool {
    exists|k: int| 0 <= k < participants.len() && (#[trigger] participants[k]).id == id
}

/// Every fill's participant is in the list.
fn all_known(fills: &Vec<FinalFill>, participants: &Vec<Participant>) -> (r: bool)
    ensures
        r <==> forall|i: int| 0 <= i < fills@.len() ==> known(participants@, (#[trigger] fills@[i]).participant_id),
{
    let mut fi: usize = 0;
    while fi < fills.len()
        invariant
            fi <= fills@.len(),
            forall|i: int| 0 <= i < fi ==> known(participants@, (#[trigger] fills@[i]).participant_id),
        decreases fills@.len() - fi,
    {
        let mut k: usize = 0;
        let mut found = false;
        while k < participants.len()
            invariant
                fi < fills@.len(),
                k <= participants@.len(),
                found <==> exists|j: int| 0 <= j < k && (#[trigger] participants@[j]).id == fills@[fi as int].participant_id,
            decreases participants@.len() - k,
        {
            if participants[k].id == fills[fi].participant_id {
                proof {
                    assert(participants@[k as int].id == fills@[fi as int].participant_id);
                }
                found = true;
            }
            k = k + 1;
        }
        if !found {
            proof {
                assert(!known(participants@, fills@[fi as int].participant_id));
            }
            return false;
        }
        fi = fi + 1;
    }
    true
}

} // verus!
