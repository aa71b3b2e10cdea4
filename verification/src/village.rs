//! Workers, houses and villages.
use crate::decimal::{
    abs_int, dec_add, dec_floor, dec_sub, decimal_difference, decimal_sum, lemma_exact_difference, lemma_exact_sum, lemma_pow10_positive,
    lemma_unit, lemma_v_sign, pow10, unit, Dec, MAX_MANTISSA,
};
use rand::rngs::StdRng;
use vstd::prelude::*;

verus! {

#[verifier::external_type_specification]
#[verifier::external_body]
pub struct ExStdRng(StdRng);

/// A worker and how long it has gone without food or shelter.
#[derive(Clone, Copy, Debug, Default)]
pub struct Worker {
    pub id: usize,
    pub days_without_food: u32,
    pub days_without_shelter: u32,
    pub days_with_both: u32,
    pub spawn_eligible: bool,
}

/// A worker's output per day, in units of [`Dec::v`]: one, less a fifth when
/// it went without food, less a fifth when it went without shelter.
pub open spec fn productivity_of(w: Worker) -> int {
    unit() - (if w.days_without_food > 0 {
        unit() / 5
    } else {
        0
    }) - (if w.days_without_shelter > 0 {
        unit() / 5
    } else {
        0
    })
}

/// The workers' output per day, summed.
pub open spec fn total_productivity(ws: Seq<Worker>) -> int
    decreases ws.len(),
{
    if ws.len() == 0 {
        0
    } else {
        total_productivity(ws.drop_last()) + productivity_of(ws.last())
    }
}

/// `Worker::productivity` as the decimal arithmetic computes it.
pub open spec fn productivity_dec(w: Worker) -> Dec {
    let fifth = Dec { mantissa: 2, scale: 1 };
    let fed = if w.days_without_food > 0 {
        decimal_difference(Dec { mantissa: 10, scale: 1 }, fifth)
    } else {
        Dec { mantissa: 10, scale: 1 }
    };
    if w.days_without_shelter > 0 {
        decimal_difference(fed, fifth)
    } else {
        fed
    }
}

/// `Village::worker_days` as the decimal arithmetic computes it: the
/// productivities added up in order, starting from zero.
pub open spec fn worker_days_dec(ws: Seq<Worker>) -> Dec
    decreases ws.len(),
{
    if ws.len() == 0 {
        Dec { mantissa: 0, scale: 0 }
    } else {
        decimal_sum(worker_days_dec(ws.drop_last()), productivity_dec(ws.last()))
    }
}

pub proof fn lemma_total_productivity_bounds(ws: Seq<Worker>)
    ensures
        0 <= total_productivity(ws) <= ws.len() * unit(),
    decreases ws.len(),
{
    if ws.len() > 0 {
        lemma_total_productivity_bounds(ws.drop_last());
    }
}

impl Worker {
    /// 1.0, less 0.2 for going without food and 0.2 for going without shelter.
    pub fn productivity(&self) -> (r: Dec)
        ensures
            r.wf(),
            r.scale <= 1,
            r.v() == productivity_of(*self),
            r == productivity_dec(*self),
    {
        proof {
            lemma_unit();
        }
        let mut productivity = Dec::new(10, 1);
        let fifth = Dec::new(2, 1);
        if self.days_without_food > 0 {
            proof {
                lemma_exact_difference(productivity, fifth, 1);
            }
            productivity = dec_sub(productivity, fifth);
        }
        if self.days_without_shelter > 0 {
            proof {
                lemma_exact_difference(productivity, fifth, 1);
            }
            productivity = dec_sub(productivity, fifth);
        }
        productivity
    }
}

/// A house. Its maintenance level drops by 0.1 on each day it goes
/// unmaintained; below zero the house shelters fewer workers.
#[derive(Clone, Copy, Debug)]
pub struct House {
    pub id: usize,
    pub maintenance_level: Dec,
}

/// How many workers a house shelters, in units of [`Dec::v`]: five, less one
/// for each whole unit of maintenance below zero, down to none.
pub open spec fn shelter_of(h: House) -> int {
    if h.maintenance_level.v() < 0 {
        let needed = abs_int(h.maintenance_level.v()) / unit();
        5 * unit() - (if needed < 5 {
            needed
        } else {
            5
        }) * unit()
    } else {
        5 * unit()
    }
}

impl House {
    /// Five, less one for each full unit of negative maintenance, at least
    /// zero.
    pub fn shelter_effect(&self) -> (r: Dec)
        requires
            self.maintenance_level.wf(),
        ensures
            r.wf(),
            r.scale == 0,
            r.v() == shelter_of(*self),
            0 <= r.v() <= 5 * unit(),
    {
        proof {
            lemma_unit();
        }
        let zero = Dec::new(0, 1);
        let five = Dec::new(5, 0);
        if self.maintenance_level.lt(&zero) {
            let magnitude = self.maintenance_level.abs();
            let needed = dec_floor(&magnitude);
            let lost = needed.min(five);
            proof {
                lemma_v_sign(needed);
                assert(needed.v() >= 0) by (nonlinear_arith)
                    requires
                        needed.v() == (magnitude.v() / unit()) * unit(),
                        magnitude.v() >= 0,
                        unit() > 0,
                ;
                assert(lost.v() == (if abs_int(self.maintenance_level.v()) / unit() < 5 {
                    abs_int(self.maintenance_level.v()) / unit()
                } else {
                    5
                }) * unit()) by (nonlinear_arith)
                    requires
                        needed.v() == (magnitude.v() / unit()) * unit(),
                        magnitude.v() == abs_int(self.maintenance_level.v()),
                        lost.v() == (if five.v() < needed.v() {
                            five.v()
                        } else {
                            needed.v()
                        }),
                        five.v() == 5 * unit(),
                        unit() > 0,
                ;
                lemma_exact_difference(five, lost, 0);
            }
            dec_sub(five, lost)
        } else {
            five
        }
    }
}

/// The work the village has allotted for the day, in worker-days.
#[derive(Clone, Copy, Debug)]
pub struct Allocation {
    pub wood: Dec,
    pub food: Dec,
    pub house_construction: Dec,
}

/// A village: its stocks, its production slots (first-rate, second-rate),
/// its workers and houses, and the random source for births.
pub struct Village {
    pub id: usize,
    pub id_str: String,
    pub wood: Dec,
    pub food: Dec,
    pub money: Dec,
    pub wood_slots: (u32, u32),
    pub food_slots: (u32, u32),
    pub workers: Vec<Worker>,
    pub houses: Vec<House>,
    pub construction_progress: Dec,
    pub next_worker_id: usize,
    pub next_house_id: usize,
    pub rng: Option<StdRng>,
}

impl Village {
    /// The workers' productivity, summed.
    pub fn worker_days(&self) -> (r: Dec)
        ensures
            r.wf(),
            r.scale <= 1,
            r.v() == total_productivity(self.workers@),
            r == worker_days_dec(self.workers@),
    {
        let mut total = Dec::zero();
        let mut i: usize = 0;
        while i < self.workers.len()
            invariant
                i <= self.workers@.len(),
                total.wf(),
                total.scale <= 1,
                total.v() == total_productivity(self.workers@.take(i as int)),
                total == worker_days_dec(self.workers@.take(i as int)),
            decreases self.workers@.len() - i,
        {
            let p = self.workers[i].productivity();
            proof {
                let ws = self.workers@.take(i as int + 1);
                assert(ws.drop_last() == self.workers@.take(i as int));
                assert(ws.last() == self.workers@[i as int]);
                lemma_total_productivity_bounds(self.workers@.take(i as int));
                lemma_unit();
                lemma_pow10_positive(27);
                assert(i + 1 <= usize::MAX + 1);
                assert((i + 1) * unit() <= (MAX_MANTISSA - 1) * pow10(27)) by (nonlinear_arith)
                    requires
                        i + 1 <= 18446744073709551616,
                        pow10(27) * 10 == unit(),
                        unit() == 10000000000000000000000000000,
                ;
                lemma_exact_sum(total, p, 1);
            }
            total = dec_add(total, p);
            i = i + 1;
        }
        proof {
            assert(self.workers@.take(self.workers@.len() as int) == self.workers@);
        }
        total
    }
}

/// Calls `rand::Rng::random_ratio` on the village's generator: `true` with
/// probability `numerator / denominator`. It panics unless the denominator is
/// positive and not below the numerator, which `requires` excludes. Nothing is
/// claimed of the result or of the generator's next state.
#[verifier::external_body]
fn draw_seeded(rng: &mut StdRng, numerator: u32, denominator: u32) -> bool
    requires
        0 < denominator,
        numerator <= denominator,
{
    rand::Rng::random_ratio(rng, numerator, denominator)
}

/// Calls `rand::random_ratio`, which draws from the thread's generator: `true`
/// with probability `numerator / denominator`. It panics unless the
/// denominator is positive and not below the numerator, which `requires`
/// excludes. Nothing is claimed of the result.
#[verifier::external_body]
fn draw_fresh(numerator: u32, denominator: u32) -> bool
    requires
        0 < denominator,
        numerator <= denominator,
{
    rand::random_ratio(numerator, denominator)
}

impl Village {
    /// A draw that comes out `true` one time in twenty: from the village's own
    /// generator when it has one, else from the thread's. Only the generator
    /// changes.
    pub fn should_spawn_worker(&mut self) -> (r: bool)
        ensures
            *final(self) == (Village { rng: final(self).rng, ..*old(self) }),
            final(self).rng is Some <==> old(self).rng is Some,
    {
        let taken = self.rng.take();
        match taken {
            Some(mut generator) => {
                let drawn = draw_seeded(&mut generator, 1, 20);
                self.rng = Some(generator);
                drawn
            },
            None => draw_fresh(1, 20),
        }
    }
}

} // verus!
