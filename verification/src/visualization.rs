//! Text charts of a run: a village's food and wood over time.
use crate::analysis::{TradingSummary, VillageTrading};
use crate::decimal::{
    abs_int, dabs, dec_add, dec_div, dec_fixed, dec_mul, dec_sub, decimal_difference, decimal_fixed,
    decimal_product, decimal_quotient, decimal_sum, lemma_abs_mul_le, lemma_product_size,
    lemma_quotient_size, lemma_rounded_size, lemma_unit, limit, unit, Dec, MAX_MANTISSA,
};
use crate::events::{Event, EventType, ResourceType, TradeSide};
use crate::metrics::{accumulate, small, total_bound, zero_dec};
use crate::simulation::whole;
use crate::text::{digits, usize_text};
use vstd::prelude::*;
use vstd::utf8::encode_utf8;

verus! {

/// The position of the last entry among the first `n` whose tick is at most
/// `t`.
pub open spec fn last_at_or_before(h: Seq<(usize, Dec)>, t: int, n: nat) -> Option<int>
    decreases n,
{
    if n == 0 {
        None
    } else if h[n - 1].0 <= t {
        Some(n - 1)
    } else {
        last_at_or_before(h, t, (n - 1) as nat)
    }
}

/// The position of the first entry among the first `n` whose tick is at
/// least `t`.
pub open spec fn first_at_or_after(h: Seq<(usize, Dec)>, t: int, n: nat) -> Option<int>
    decreases n,
{
    if n == 0 {
        None
    } else {
        match first_at_or_after(h, t, (n - 1) as nat) {
            Some(i) => Some(i),
            None => if h[n - 1].0 >= t {
                Some(n - 1)
            } else {
                None
            },
        }
    }
}

/// The value of a history at tick `t`: the value of the last entry at or
/// before `t` or of the first at or after it when only one exists; between
/// two entries of different ticks, the straight line between their values;
/// zero for an empty history.
pub open spec fn interpolated(h: Seq<(usize, Dec)>, t: usize) -> Dec {
    match (last_at_or_before(h, t as int, h.len()), first_at_or_after(h, t as int, h.len())) {
        (Some(i), None) => h[i].1,
        (None, Some(j)) => h[j].1,
        (Some(i), Some(j)) => if h[i].0 == h[j].0 {
            h[i].1
        } else {
            decimal_sum(
                h[i].1,
                decimal_product(
                    decimal_difference(h[j].1, h[i].1),
                    decimal_quotient(whole(t - h[i].0), whole(h[j].0 - h[i].0)),
                ),
            )
        },
        (None, None) => zero_dec(),
    }
}

/// Every value is well formed and at most `10^28` in magnitude.
pub open spec fn history_bounded(h: Seq<(usize, Dec)>) -> bool {
    forall|k: int| 0 <= k < h.len() ==> (#[trigger] h[k]).1.wf() && abs_int(h[k].1.v()) <= 10000000000000000000000000000 * unit()
}

proof fn lemma_last_found(h: Seq<(usize, Dec)>, t: int, n: nat)
    requires
        n <= h.len(),
    ensures
        last_at_or_before(h, t, n) matches Some(i) ==> 0 <= i < n && h[i].0 <= t,
    decreases n,
{
    if n > 0 {
        lemma_last_found(h, t, (n - 1) as nat);
    }
}

proof fn lemma_first_found(h: Seq<(usize, Dec)>, t: int, n: nat)
    requires
        n <= h.len(),
    ensures
        first_at_or_after(h, t, n) matches Some(j) ==> 0 <= j < n && h[j].0 >= t,
    decreases n,
{
    if n > 0 {
        lemma_first_found(h, t, (n - 1) as nat);
    }
}

/// The value of the history at the tick, read between its entries.
pub fn interpolate_value(history: &Vec<(usize, Dec)>, tick: usize) -> (r: Dec)
    requires
        history_bounded(history@),
    ensures
        r == interpolated(history@, tick),
        r.wf(),
        abs_int(r.v()) <= 60000000000000000000000000000 * unit(),
{
    proof {
        lemma_unit();
    }
    let ghost h = history@;
    if history.len() == 0 {
        return Dec::zero();
    }
    let mut before: Option<(usize, Dec)> = None;
    let mut after: Option<(usize, Dec)> = None;
    let mut k: usize = 0;
    while k < history.len()
        invariant
            h == history@,
            k <= h.len(),
            before == (match last_at_or_before(h, tick as int, k as nat) {
                Some(i) => Some(h[i]),
                None => None,
            }),
            after == (match first_at_or_after(h, tick as int, k as nat) {
                Some(j) => Some(h[j]),
                None => None,
            }),
        decreases h.len() - k,
    {
        let entry = history[k];
        if entry.0 <= tick {
            before = Some(entry);
        }
        if entry.0 >= tick && after.is_none() {
            after = Some(entry);
        }
        k = k + 1;
    }
    proof {
        lemma_last_found(h, tick as int, h.len());
        lemma_first_found(h, tick as int, h.len());
    }
    match (before, after) {
        (Some((_, v)), None) => {
            proof {
                let i = last_at_or_before(h, tick as int, h.len()).unwrap();
                assert(h[i].1 == v);
            }
            v
        },
        (None, Some((_, v))) => {
            proof {
                let j = first_at_or_after(h, tick as int, h.len()).unwrap();
                assert(h[j].1 == v);
            }
            v
        },
        (Some((t1, v1)), Some((t2, v2))) => {
            let ghost i = last_at_or_before(h, tick as int, h.len()).unwrap();
            let ghost j = first_at_or_after(h, tick as int, h.len()).unwrap();
            proof {
                assert(h[i] == (t1, v1));
                assert(h[j] == (t2, v2));
            }
            if t1 == t2 {
                v1
            } else {
                let span = Dec::from_usize(t2 - t1);
                let gone = Dec::from_usize(tick - t1);
                proof {
                    assert(abs_int(gone.v()) <= (MAX_MANTISSA - 1) * abs_int(span.v())) by (nonlinear_arith)
                        requires
                            gone.v() == (tick - t1) * unit(),
                            span.v() == (t2 - t1) * unit(),
                            0 <= tick - t1 <= t2 - t1,
                            unit() > 0,
                            MAX_MANTISSA == 79228162514264337593543950335,
                    ;
                }
                let ratio = dec_div(gone, span);
                proof {
                    lemma_quotient_size(gone, span, ratio);
                    assert(abs_int(ratio.v()) <= 2 * unit()) by (nonlinear_arith)
                        requires
                            abs_int(ratio.v()) * abs_int(span.v()) <= abs_int(gone.v()) * unit() + abs_int(span.v()) * unit(),
                            abs_int(gone.v()) <= abs_int(span.v()),
                            abs_int(span.v()) > 0,
                            unit() > 0,
                    ;
                }
                let diff = dec_sub(v2, v1);
                proof {
                    lemma_rounded_size(v2.v() - v1.v(), diff);
                    lemma_abs_mul_le(diff.v(), ratio.v(), 20000000000000000000000000001 * unit(), 2 * unit());
                    assert((20000000000000000000000000001 * unit()) * (2 * unit()) <= limit() * unit()) by (nonlinear_arith)
                        requires
                            unit() == 10000000000000000000000000000,
                            limit() == (MAX_MANTISSA - 1) * unit(),
                            MAX_MANTISSA == 79228162514264337593543950335,
                    ;
                }
                let step = dec_mul(diff, ratio);
                proof {
                    lemma_product_size(diff, ratio, step);
                    assert(abs_int(step.v()) <= 40000000000000000000000000003 * unit()) by (nonlinear_arith)
                        requires
                            abs_int(step.v()) * unit() <= abs_int(diff.v() * ratio.v()) + unit() * unit(),
                            abs_int(diff.v() * ratio.v()) <= (20000000000000000000000000001 * unit()) * (2 * unit()),
                            unit() > 0,
                    ;
                }
                let r = dec_add(v1, step);
                proof {
                    lemma_rounded_size(v1.v() + step.v(), r);
                }
                r
            }
        },
        (None, None) => {
            proof {
                assert(last_at_or_before(h, tick as int, h.len()) is Some) by {
                    assert(h[h.len() - 1].0 <= tick || h[h.len() - 1].0 >= tick);
                    if h[h.len() - 1].0 >= tick {
                        lemma_first_found(h, tick as int, (h.len() - 1) as nat);
                    }
                }
            }
            Dec::zero()
        },
    }
}

/// The food and wood balances after one more event: production adds,
/// consumption takes away, a purchase adds and a sale takes away the
/// quantity traded.
pub open spec fn balance_step(food: Dec, wood: Dec, t: EventType) -> (Dec, Dec) {
    match t {
        EventType::ResourceProduced { resource, amount, .. } => if resource == ResourceType::Food {
            (decimal_sum(food, amount), wood)
        } else {
            (food, decimal_sum(wood, amount))
        },
        EventType::ResourceConsumed { resource, amount, .. } => if resource == ResourceType::Food {
            (decimal_difference(food, amount), wood)
        } else {
            (food, decimal_difference(wood, amount))
        },
        EventType::TradeExecuted { resource, quantity, side, .. } => if resource == ResourceType::Food {
            if side == TradeSide::Buy {
                (decimal_sum(food, quantity), wood)
            } else {
                (decimal_difference(food, quantity), wood)
            }
        } else {
            if side == TradeSide::Buy {
                (food, decimal_sum(wood, quantity))
            } else {
                (food, decimal_difference(wood, quantity))
            }
        },
        _ => (food, wood),
    }
}

/// The village's balances after its events among the first `n`, starting
/// from zero, with the food and the wood samples: the tick and balance after
/// each of its events whose tick is a multiple of five.
pub open spec fn sampled(events: Seq<Event>, id: Seq<char>, n: nat) -> (Dec, Dec, Seq<(usize, Dec)>, Seq<(usize, Dec)>)
    decreases n,
{
    if n == 0 {
        (zero_dec(), zero_dec(), Seq::empty(), Seq::empty())
    } else {
        let (f, w, fs, ws) = sampled(events, id, (n - 1) as nat);
        let e = events[n - 1];
        if e.village_id@ != id {
            (f, w, fs, ws)
        } else {
            let (f2, w2) = balance_step(f, w, e.event_type);
            if e.tick % 5 == 0 {
                (f2, w2, fs.push((e.tick, f2)), ws.push((e.tick, w2)))
            } else {
                (f2, w2, fs, ws)
            }
        }
    }
}

/// The food and the wood samples come in pairs.
proof fn lemma_samples_paired(events: Seq<Event>, id: Seq<char>, n: nat)
    requires
        n <= events.len(),
    ensures
        sampled(events, id, n).2.len() == sampled(events, id, n).3.len(),
    decreases n,
{
    if n > 0 {
        lemma_samples_paired(events, id, (n - 1) as nat);
    }
}

/// The amounts and quantities that a chart adds up are small.
pub open spec fn chartable_event(t: EventType) -> bool {
    match t {
        EventType::ResourceProduced { amount, .. } => small(amount),
        EventType::ResourceConsumed { amount, .. } => small(amount),
        EventType::TradeExecuted { quantity, .. } => small(quantity),
        _ => true,
    }
}

/// At most a billion events, each with small amounts.
pub open spec fn chartable(events: Seq<Event>) -> bool {
    &&& events.len() <= 1000000000
    &&& forall|i: int| 0 <= i < events.len() ==> chartable_event(#[trigger] events[i].event_type)
}

/// Every sample is well formed and at most `2 * 10^27` in magnitude.
pub open spec fn samples_bounded(h: Seq<(usize, Dec)>) -> bool {
    forall|k: int|
        0 <= k < h.len() ==> (#[trigger] h[k]).1.wf() && abs_int(h[k].1.v()) <= 2000000000000000000000000000 * unit()
}

/// Goes through the village's events, in order, keeping its food and wood
/// balances, and samples them after each event whose tick is a multiple of
/// five.
fn sample_balances(events: &[Event], village_id: &str) -> (r: (Vec<(usize, Dec)>, Vec<(usize, Dec)>))
    requires
        chartable(events@),
    ensures
        r.0@ == sampled(events@, village_id@, events@.len() as nat).2,
        r.1@ == sampled(events@, village_id@, events@.len() as nat).3,
        samples_bounded(r.0@),
        samples_bounded(r.1@),
{
    proof {
        lemma_unit();
    }
    let target = String::from_str(village_id);
    let mut food = Dec::zero();
    let mut wood = Dec::zero();
    let mut food_history: Vec<(usize, Dec)> = Vec::new();
    let mut wood_history: Vec<(usize, Dec)> = Vec::new();
    let mut i: usize = 0;
    while i < events.len()
        invariant
            i <= events@.len(),
            chartable(events@),
            target@ == village_id@,
            (food, wood, food_history@, wood_history@) == sampled(events@, village_id@, i as nat),
            food.wf(),
            wood.wf(),
            abs_int(food.v()) <= total_bound(i as int),
            abs_int(wood.v()) <= total_bound(i as int),
            forall|k: int|
                0 <= k < food_history@.len() ==> (#[trigger] food_history@[k]).1.wf() && abs_int(
                    food_history@[k].1.v(),
                ) <= total_bound(i as int),
            forall|k: int|
                0 <= k < wood_history@.len() ==> (#[trigger] wood_history@[k]).1.wf() && abs_int(
                    wood_history@[k].1.v(),
                ) <= total_bound(i as int),
        decreases events@.len() - i,
    {
        let e = &events[i];
        proof {
            assert(chartable_event(events@[i as int].event_type));
            lemma_bound_grows(i as int);
        }
        if e.village_id == target {
            match &e.event_type {
                EventType::ResourceProduced { resource, amount, .. } => match resource {
                    ResourceType::Food => {
                        food = accumulate(food, *amount, true, Ghost(i as int));
                    },
                    ResourceType::Wood => {
                        wood = accumulate(wood, *amount, true, Ghost(i as int));
                    },
                },
                EventType::ResourceConsumed { resource, amount, .. } => match resource {
                    ResourceType::Food => {
                        food = accumulate(food, *amount, false, Ghost(i as int));
                    },
                    ResourceType::Wood => {
                        wood = accumulate(wood, *amount, false, Ghost(i as int));
                    },
                },
                EventType::TradeExecuted { resource, quantity, side, .. } => {
                    let buy = match side {
                        TradeSide::Buy => true,
                        TradeSide::Sell => false,
                    };
                    match resource {
                        ResourceType::Food => {
                            food = accumulate(food, *quantity, buy, Ghost(i as int));
                        },
                        ResourceType::Wood => {
                            wood = accumulate(wood, *quantity, buy, Ghost(i as int));
                        },
                    }
                },
                _ => {},
            }
            if e.tick % 5 == 0 {
                food_history.push((e.tick, food));
                wood_history.push((e.tick, wood));
            }
        }
        i = i + 1;
    }
    proof {
        assert(total_bound(events@.len() as int) <= 2000000000000000000000000000 * unit()) by (nonlinear_arith)
            requires
                total_bound(events@.len() as int) == events@.len() * 20000000000000000000000000000000000000000000000,
                events@.len() <= 1000000000,
                unit() == 10000000000000000000000000000,
        ;
    }
    (food_history, wood_history)
}

proof fn lemma_bound_grows(i: int)
    requires
        i >= 0,
    ensures
        total_bound(i) <= total_bound(i + 1),
        0 <= total_bound(i),
        1000000000 * unit() <= 1000000000000000001 * unit(),
{
    lemma_unit();
    assert(0 <= total_bound(i) <= total_bound(i + 1)) by (nonlinear_arith)
        requires
            i >= 0,
            total_bound(i) == i * 20000000000000000000000000000000000000000000000,
            total_bound(i + 1) == (i + 1) * 20000000000000000000000000000000000000000000000,
    ;
}

/// `s` written `n` times.
pub open spec fn repeat(s: Seq<char>, n: nat) -> Seq<char>
    decreases n,
{
    if n == 0 {
        Seq::empty()
    } else {
        repeat(s, (n - 1) as nat) + s
    }
}

/// `s` right-aligned in `w` characters: spaces before it when it is shorter.
pub open spec fn pad_left(s: Seq<char>, w: nat) -> Seq<char> {
    if s.len() < w {
        repeat(" "@, (w - s.len()) as nat) + s
    } else {
        s
    }
}

/// The largest of the first `n` values, the later one on ties (as
/// `Iterator::max` picks it).
pub open spec fn last_max(h: Seq<(usize, Dec)>, n: nat) -> Dec
    decreases n,
{
    if n <= 1 {
        h[0].1
    } else {
        let m = last_max(h, (n - 1) as nat);
        if m.v() <= h[n - 1].1.v() {
            h[n - 1].1
        } else {
            m
        }
    }
}

/// The level of row `h` out of ten: `max * h / 10`.
pub open spec fn threshold(max: Dec, h: nat) -> Dec {
    decimal_quotient(decimal_product(max, whole(h as int)), whole(10))
}

/// Column `x` of a row at level `t`: both stocks at or above it, only food,
/// only wood, or neither, at the tick that the column stands for.
pub open spec fn cell(fh: Seq<(usize, Dec)>, wh: Seq<(usize, Dec)>, max_tick: usize, cw: usize, t: Dec, x: nat) -> Seq<char> {
    let tick = (x * max_tick / (cw as int)) as usize;
    let f = interpolated(fh, tick);
    let w = interpolated(wh, tick);
    if f.v() >= t.v() && w.v() >= t.v() {
        "█"@
    } else if f.v() >= t.v() {
        "F"@
    } else if w.v() >= t.v() {
        "W"@
    } else {
        " "@
    }
}

/// The first `n` columns of a row at level `t`.
pub open spec fn cells(fh: Seq<(usize, Dec)>, wh: Seq<(usize, Dec)>, max_tick: usize, cw: usize, t: Dec, n: nat) -> Seq<char>
    decreases n,
{
    if n == 0 {
        Seq::empty()
    } else {
        cells(fh, wh, max_tick, cw, t, (n - 1) as nat) + cell(fh, wh, max_tick, cw, t, (n - 1) as nat)
    }
}

/// Row `h`: its level, right-aligned in six places without decimals, an
/// axis, and its columns.
pub open spec fn chart_row(fh: Seq<(usize, Dec)>, wh: Seq<(usize, Dec)>, max_tick: usize, cw: usize, max: Dec, h: nat) -> Seq<char> {
    let t = threshold(max, h);
    pad_left(decimal_fixed(t, 0), 6) + " │"@ + cells(fh, wh, max_tick, cw, t, cw as nat) + "\n"@
}

/// The first `k` rows, from the highest level down.
pub open spec fn chart_rows(fh: Seq<(usize, Dec)>, wh: Seq<(usize, Dec)>, max_tick: usize, cw: usize, max: Dec, k: nat) -> Seq<char>
    decreases k,
{
    if k == 0 {
        Seq::empty()
    } else {
        chart_rows(fh, wh, max_tick, cw, max, (k - 1) as nat) + chart_row(fh, wh, max_tick, cw, max, (10 - k) as nat)
    }
}

/// The chart's heading: its title and a rule as wide as the chart.
pub open spec fn timeline_head(id: Seq<char>, width: nat) -> Seq<char> {
    "Resource Timeline: "@ + id + "\n"@ + repeat("─"@, width) + "\n"@
}

/// A village's resource timeline: after the heading, ten rows from the
/// largest sampled balance down to zero, each marking where food, wood or
/// both reach its level over the ticks, then the tick axis and a key; or a
/// note when the village has no samples.
pub open spec fn timeline_text(events: Seq<Event>, id: Seq<char>, width: usize) -> Seq<char> {
    let (_, _, fh, wh) = sampled(events, id, events.len());
    if fh.len() == 0 {
        timeline_head(id, width as nat) + "No resource data available for this village.\n"@
    } else {
        let max_food = last_max(fh, fh.len());
        let max_wood = last_max(wh, wh.len());
        let max = if max_food.v() <= max_wood.v() {
            max_wood
        } else {
            max_food
        };
        let max_tick = fh[fh.len() - 1].0;
        let cw = (width - 10) as usize;
        timeline_head(id, width as nat) + chart_rows(fh, wh, max_tick, cw, max, 10) + "       └"@ + repeat(
            "─"@,
            cw as nat,
        ) + "\n"@ + "        0"@ + pad_left(digits(max_tick as nat), (cw - 2) as nat) + "\n"@
            + "\nF=Food  W=Wood  █=Both\n"@
    }
}

/// Appends `piece` `n` times.
fn append_repeat(out: &mut String, piece: &str, n: usize)
    ensures
        final(out)@ == old(out)@ + repeat(piece@, n as nat),
{
    let mut k: usize = 0;
    while k < n
        invariant
            k <= n,
            out@ == old(out)@ + repeat(piece@, k as nat),
        decreases n - k,
    {
        out.append(piece);
        proof {
            assert(old(out)@ + repeat(piece@, (k + 1) as nat) =~= old(out)@ + repeat(piece@, k as nat) + piece@);
        }
        k = k + 1;
    }
}

/// `text` right-aligned in `w` characters.
fn padded(text: &str, w: usize) -> (r: String)
    ensures
        r@ == pad_left(text@, w as nat),
{
    let n = text.unicode_len();
    let mut r = String::new();
    if n < w {
        append_repeat(&mut r, " ", w - n);
    }
    r.append(text);
    proof {
        if n < w {
            assert(r@ =~= pad_left(text@, w as nat));
        } else {
            assert(r@ =~= text@);
        }
    }
    r
}

/// The largest sampled balance, the later one on ties.
fn last_max_of(h: &Vec<(usize, Dec)>) -> (r: Dec)
    requires
        h@.len() >= 1,
        samples_bounded(h@),
    ensures
        r == last_max(h@, h@.len()),
        r.wf(),
        abs_int(r.v()) <= 2000000000000000000000000000 * unit(),
{
    let mut m = h[0].1;
    let mut k: usize = 1;
    while k < h.len()
        invariant
            1 <= k <= h@.len(),
            samples_bounded(h@),
            m == last_max(h@, k as nat),
            m.wf(),
            abs_int(m.v()) <= 2000000000000000000000000000 * unit(),
        decreases h@.len() - k,
    {
        let x = h[k].1;
        proof {
            assert(samples_bounded(h@));
            assert(h@[k as int].1 == x);
        }
        if m.le(&x) {
            m = x;
        }
        k = k + 1;
    }
    m
}

/// One row of the chart.
fn chart_row_text(
    fh: &Vec<(usize, Dec)>,
    wh: &Vec<(usize, Dec)>,
    max_tick: usize,
    cw: usize,
    max: Dec,
    h: usize,
) -> (r: String)
    requires
        samples_bounded(fh@),
        samples_bounded(wh@),
        max.wf(),
        abs_int(max.v()) <= 2000000000000000000000000000 * unit(),
        h <= 9,
        cw >= 1,
        (cw - 1) * max_tick <= usize::MAX,
    ensures
        r@ == chart_row(fh@, wh@, max_tick, cw, max, h as nat),
{
    proof {
        lemma_unit();
        lemma_abs_mul_le(max.v(), (h as int) * unit(), 2000000000000000000000000000 * unit(), 9 * unit());
        assert((2000000000000000000000000000 * unit()) * (9 * unit()) <= limit() * unit()) by (nonlinear_arith)
            requires
                unit() == 10000000000000000000000000000,
                limit() == (MAX_MANTISSA - 1) * unit(),
                MAX_MANTISSA == 79228162514264337593543950335,
        ;
    }
    let level = Dec::from_usize(h);
    let scaled = dec_mul(max, level);
    proof {
        lemma_product_size(max, level, scaled);
        assert(abs_int(scaled.v()) <= (MAX_MANTISSA - 1) * (10 * unit())) by (nonlinear_arith)
            requires
                abs_int(scaled.v()) * unit() <= abs_int(max.v() * level.v()) + unit() * unit(),
                abs_int(max.v() * level.v()) <= (2000000000000000000000000000 * unit()) * (9 * unit()),
                unit() == 10000000000000000000000000000,
                MAX_MANTISSA == 79228162514264337593543950335,
        ;
    }
    let ten = Dec::from_usize(10);
    let t = dec_div(scaled, ten);
    let mut row = padded(dec_fixed(&t, 0).as_str(), 6);
    row.append(" │");
    let ghost head = row@;
    proof {
        assert(samples_bounded(fh@) ==> history_bounded(fh@));
        assert(samples_bounded(wh@) ==> history_bounded(wh@));
    }
    let mut x: usize = 0;
    while x < cw
        invariant
            x <= cw,
            cw >= 1,
            (cw - 1) * max_tick <= usize::MAX,
            history_bounded(fh@),
            history_bounded(wh@),
            t.wf(),
            row@ == head + cells(fh@, wh@, max_tick, cw, t, x as nat),
        decreases cw - x,
    {
        proof {
            assert(x * max_tick <= (cw - 1) * max_tick) by (nonlinear_arith)
                requires
                    x <= cw - 1,
                    max_tick >= 0,
            ;
        }
        let tick = x * max_tick / cw;
        let f = interpolate_value(fh, tick);
        let w = interpolate_value(wh, tick);
        let mark = if f.ge(&t) && w.ge(&t) {
            "█"
        } else if f.ge(&t) {
            "F"
        } else if w.ge(&t) {
            "W"
        } else {
            " "
        };
        row.append(mark);
        proof {
            assert(mark@ == cell(fh@, wh@, max_tick, cw, t, x as nat));
        }
        x = x + 1;
    }
    row.append("\n");
    row
}

/// A text chart of a village's food and wood, `width` characters wide: the
/// balances, sampled every fifth tick, on ten levels from the largest down
/// to zero, with the ticks between samples read along straight lines.
pub fn resource_timeline(events: &[Event], village_id: &str, width: usize) -> (r: String)
    requires
        chartable(events@),
        ({
            let fh = sampled(events@, village_id@, events@.len() as nat).2;
            fh.len() > 0 ==> width >= 12 && (width - 11) * fh[fh.len() - 1].0 <= usize::MAX
        }),
    ensures
        r@ == timeline_text(events@, village_id@, width),
{
    let mut timeline = String::from_str("Resource Timeline: ");
    timeline.append(village_id);
    timeline.append("\n");
    append_repeat(&mut timeline, "─", width);
    timeline.append("\n");
    let (food_history, wood_history) = sample_balances(events, village_id);
    if food_history.len() == 0 {
        timeline.append("No resource data available for this village.\n");
        return timeline;
    }
    proof {
        lemma_samples_paired(events@, village_id@, events@.len() as nat);
    }
    let max_food = last_max_of(&food_history);
    let max_wood = last_max_of(&wood_history);
    let max = if max_food.le(&max_wood) {
        max_wood
    } else {
        max_food
    };
    let max_tick = food_history[food_history.len() - 1].0;
    let cw = width - 10;
    let ghost head = timeline@;
    let mut k: usize = 1;
    while k <= 10
        invariant
            1 <= k <= 11,
            samples_bounded(food_history@),
            samples_bounded(wood_history@),
            max.wf(),
            abs_int(max.v()) <= 2000000000000000000000000000 * unit(),
            cw >= 2,
            (cw - 1) * max_tick <= usize::MAX,
            timeline@ == head + chart_rows(food_history@, wood_history@, max_tick, cw, max, (k - 1) as nat),
        decreases 11 - k,
    {
        let row = chart_row_text(&food_history, &wood_history, max_tick, cw, max, 10 - k);
        timeline.append(row.as_str());
        k = k + 1;
    }
    timeline.append("       └");
    append_repeat(&mut timeline, "─", cw);
    timeline.append("\n");
    timeline.append("        0");
    let label = padded(usize_text(max_tick).as_str(), cw - 2);
    timeline.append(label.as_str());
    timeline.append("\n");
    timeline.append("\nF=Food  W=Wood  █=Both\n");
    timeline
}

/// The figures of a trading summary can be written out.
pub open spec fn summary_writable(t: TradingSummary) -> bool {
    t.total_spent.wf() && t.total_earned.wf() && t.net_profit.wf()
}

/// A village's part of the trade flow: its identifier underlined, what it
/// sold and earned, what it bought and spent, and the direction and size of
/// its net result, each line only when there is something to show.
pub open spec fn flow_section(v: VillageTrading) -> Seq<char> {
    let t = v.trading;
    "\n"@ + v.id@ + "\n"@ + repeat("─"@, encode_utf8(v.id@).len()) + "\n"@ + (if t.executed_sells > 0 {
        "  → SOLD: "@ + digits(t.executed_sells as nat) + " orders ("@ + decimal_fixed(t.total_earned, 2)
            + " earned)\n"@
    } else {
        Seq::empty()
    }) + (if t.executed_buys > 0 {
        "  ← BOUGHT: "@ + digits(t.executed_buys as nat) + " orders ("@ + decimal_fixed(t.total_spent, 2)
            + " spent)\n"@
    } else {
        Seq::empty()
    }) + (if t.net_profit.v() != 0 {
        "  "@ + (if t.net_profit.v() > 0 {
            "↑"@
        } else {
            "↓"@
        }) + " NET: "@ + decimal_fixed(dabs(t.net_profit), 2) + "\n"@
    } else {
        Seq::empty()
    })
}

/// The parts of the villages among the first `n` that traded, in order.
pub open spec fn flow_sections(vs: Seq<VillageTrading>, n: nat) -> Seq<char>
    decreases n,
{
    if n == 0 {
        Seq::empty()
    } else if vs[n - 1].trading.total_trades == 0 {
        flow_sections(vs, (n - 1) as nat)
    } else {
        flow_sections(vs, (n - 1) as nat) + flow_section(vs[n - 1])
    }
}

/// Some village among the first `n` traded.
pub open spec fn any_traded(vs: Seq<VillageTrading>, n: nat) -> bool {
    exists|i: int| 0 <= i < n && (#[trigger] vs[i]).trading.total_trades > 0
}

/// The trade flow: a heading, each trading village's part, then the market's
/// volume and the success rate as written by the caller, or a note that
/// nothing was traded.
pub open spec fn trade_flow_text(vs: Seq<VillageTrading>, total_trades: usize, success_rate: Seq<char>) -> Seq<char> {
    "Trade Flow Summary\n"@ + repeat("═"@, 50) + "\n"@ + flow_sections(vs, vs.len()) + (if any_traded(
        vs,
        vs.len(),
    ) {
        "\nTotal Market Volume: "@ + digits(total_trades as nat) + " trades\n"@ + "Trade Success Rate: "@
            + success_rate + "%\n"@
    } else {
        "\nNo trades executed during simulation.\n"@
    })
}

/// One village's part of the trade flow.
fn flow_section_text(v: &VillageTrading) -> (r: String)
    requires
        summary_writable(v.trading),
    ensures
        r@ == flow_section(*v),
{
    let t = v.trading;
    let mut out = String::from_str("\n");
    out.append(v.id.as_str());
    out.append("\n");
    let id_bytes = v.id.as_str().as_bytes().len();
    append_repeat(&mut out, "─", id_bytes);
    out.append("\n");
    let ghost head = out@;
    proof {
        assert(head =~= "\n"@ + v.id@ + "\n"@ + repeat("─"@, encode_utf8(v.id@).len()) + "\n"@);
    }
    if t.executed_sells > 0 {
        out.append("  → SOLD: ");
        out.append(usize_text(t.executed_sells).as_str());
        out.append(" orders (");
        out.append(dec_fixed(&t.total_earned, 2).as_str());
        out.append(" earned)\n");
    }
    let ghost sold = out@;
    proof {
        if t.executed_sells > 0 {
            assert(sold =~= head + ("  → SOLD: "@ + digits(t.executed_sells as nat) + " orders ("@
                + decimal_fixed(t.total_earned, 2) + " earned)\n"@));
        }
    }
    if t.executed_buys > 0 {
        out.append("  ← BOUGHT: ");
        out.append(usize_text(t.executed_buys).as_str());
        out.append(" orders (");
        out.append(dec_fixed(&t.total_spent, 2).as_str());
        out.append(" spent)\n");
    }
    let ghost bought = out@;
    proof {
        if t.executed_buys > 0 {
            assert(bought =~= sold + ("  ← BOUGHT: "@ + digits(t.executed_buys as nat) + " orders ("@
                + decimal_fixed(t.total_spent, 2) + " spent)\n"@));
        }
    }
    let net = t.net_profit;
    let zero = Dec::zero();
    if !net.eq_value(&zero) {
        out.append("  ");
        if net.gt(&zero) {
            out.append("↑");
        } else {
            out.append("↓");
        }
        out.append(" NET: ");
        out.append(dec_fixed(&net.abs(), 2).as_str());
        out.append("\n");
    }
    proof {
        assert(out@ =~= flow_section(*v));
    }
    out
}

/// The trade flow of the villages: what each village that traded sold,
/// bought and came out with, then the market's volume and the success rate,
/// which the caller writes out (`success_rate` is the percentage's text); or
/// a note that nothing was traded.
pub fn trade_flow_diagram(villages: &[VillageTrading], total_trades: usize, success_rate: &str) -> (r: String)
    requires
        forall|i: int| 0 <= i < villages@.len() ==> summary_writable(#[trigger] villages@[i].trading),
    ensures
        r@ == trade_flow_text(villages@, total_trades, success_rate@),
{
    let mut diagram = String::from_str("Trade Flow Summary\n");
    append_repeat(&mut diagram, "═", 50);
    diagram.append("\n");
    let ghost head = diagram@;
    let mut any_trades = false;
    let mut i: usize = 0;
    while i < villages.len()
        invariant
            i <= villages@.len(),
            forall|k: int| 0 <= k < villages@.len() ==> summary_writable(#[trigger] villages@[k].trading),
            diagram@ == head + flow_sections(villages@, i as nat),
            any_trades == any_traded(villages@, i as nat),
        decreases villages@.len() - i,
    {
        let v = &villages[i];
        if v.trading.total_trades > 0 {
            any_trades = true;
            let section = flow_section_text(v);
            diagram.append(section.as_str());
            proof {
                assert(villages@[i as int].trading.total_trades > 0);
            }
        } else {
            proof {
                assert forall|k: int| 0 <= k < i + 1 && (#[trigger] villages@[k]).trading.total_trades > 0 implies k < i by {}
            }
        }
        proof {
            assert(diagram@ =~= head + flow_sections(villages@, (i + 1) as nat));
        }
        i = i + 1;
    }
    if !any_trades {
        diagram.append("\nNo trades executed during simulation.\n");
    } else {
        diagram.append("\nTotal Market Volume: ");
        diagram.append(usize_text(total_trades).as_str());
        diagram.append(" trades\n");
        diagram.append("Trade Success Rate: ");
        diagram.append(success_rate);
        diagram.append("%\n");
    }
    proof {
        assert(diagram@ =~= trade_flow_text(villages@, total_trades, success_rate@));
    }
    diagram
}

} // verus!
