//! Samples of a benchmark: when to take them, and what they amount to.
use vstd::prelude::*;

verus! {

/// The samples of a benchmark in ascending order, in nanoseconds, with their median and their
/// 95th percentile.
pub struct Stats {
    pub samples: Vec<u128>,
    pub median: u128,
    pub p95: u128,
}

/// The values ascend.
pub open spec fn is_sorted(values: Seq<u128>) -> bool {
    forall|i: int, j: int| 0 <= i <= j < values.len() ==> values[i] <= values[j]
}

/// Calls `<[u128]>::sort_unstable`.
///
/// The contract claims that sorting brings the same values into ascending order.
#[verifier::external_body]
fn sort_samples(samples: &mut Vec<u128>)
    ensures
        is_sorted(final(samples)@),
        final(samples)@.to_multiset() == old(samples)@.to_multiset(),
{
    samples.sort_unstable();
}

/// The position of the 95th percentile among `n` sorted samples: the smallest one at which at
/// least 95 of 100 samples have been passed.
pub open spec fn p95_position(n: int) -> int {
    (n * 95 + 99) / 100 - 1
}

/// Sorts the samples and picks their median and 95th percentile.
pub fn stats(samples: Vec<u128>) -> (stats: Stats)
    requires
        samples@.len() > 0,
        samples@.len() * 95 <= usize::MAX,
    ensures
        is_sorted(stats.samples@),
        stats.samples@.to_multiset() == samples@.to_multiset(),
        stats.samples@.len() == samples@.len(),
        stats.median == stats.samples@[samples@.len() as int / 2],
        stats.p95 == stats.samples@[p95_position(samples@.len() as int)],
{
    let mut samples: Vec<u128> = samples;
    let ghost before = samples@;
    sort_samples(&mut samples);
    proof {
        before.to_multiset_ensures();
        samples@.to_multiset_ensures();
    }
    let n: usize = samples.len();
    let median: u128 = samples[n / 2];
    let scaled: usize = n * 95;
    let passed: usize = scaled / 100 + if scaled % 100 == 0 {
        0
    } else {
        1
    };
    let p95: u128 = samples[passed - 1];
    Stats { samples, median, p95 }
}

/// The 95th percentile is never below the median, and at least 95 of 100 samples do not exceed it.
pub proof fn p95_is_not_below_the_median(samples: Seq<u128>)
    requires
        samples.len() > 0,
        is_sorted(samples),
    ensures
        ({
            let n = samples.len() as int;
            let p95 = p95_position(n);
            &&& 0 <= n / 2 <= p95 < n
            &&& samples[n / 2] <= samples[p95]
            &&& 100 * (p95 + 1) >= 95 * n
            &&& forall|i: int| 0 <= i <= p95 ==> samples[i] <= samples[p95]
        }),
{
}

/// A plan of samples: warm-up rounds whose times are dropped, then measured rounds. A round runs
/// one program, or two programs one after the other.
pub struct Sampling {
    pub warmup: u32,
    pub measured: u32,
    pub pair: bool,
    /// How many runs have been timed.
    pub taken: u64,
    /// The times of the first program that were kept.
    pub first: Vec<u128>,
    /// The times of the second program that were kept.
    pub second: Vec<u128>,
}

impl Sampling {
    /// How many runs make a round.
    pub open spec fn width(self) -> int {
        if self.pair {
            2
        } else {
            1
        }
    }

    /// How many runs make the plan.
    pub open spec fn runs(self) -> int {
        (self.warmup + self.measured) * self.width()
    }

    /// The next run is one of the second program.
    pub open spec fn turns_to_second(self) -> bool {
        self.pair && self.taken % 2 == 1
    }

    /// The next run belongs to a measured round.
    pub open spec fn keeps(self) -> bool {
        self.taken >= self.warmup * self.width()
    }

    /// The plan is what `times` made of a fresh plan.
    pub open spec fn has_taken(self, times: Seq<u128>) -> bool {
        &&& self.taken == times.len()
        &&& times.len() <= self.runs()
        &&& self.first@ == kept(times, self.warmup as int, self.width(), 0)
        &&& self.second@ == if self.pair {
            kept(times, self.warmup as int, 2, 1)
        } else {
            Seq::empty()
        }
    }

    /// Starts a plan.
    pub fn new(warmup: u32, measured: u32, pair: bool) -> (plan: Sampling)
        ensures
            plan.warmup == warmup,
            plan.measured == measured,
            plan.pair == pair,
            plan.has_taken(Seq::empty()),
    {
        let plan: Sampling = Sampling {
            warmup,
            measured,
            pair,
            taken: 0,
            first: Vec::new(),
            second: Vec::new(),
        };
        proof {
            assert(kept(Seq::empty(), warmup as int, plan.width(), 0) =~= Seq::<u128>::empty());
            assert(kept(Seq::empty(), warmup as int, 2, 1) =~= Seq::<u128>::empty());
            assert(plan.runs() >= 0) by (nonlinear_arith)
                requires
                    plan.runs() == (plan.warmup + plan.measured) * plan.width(),
                    plan.width() >= 1,
            ;
        }
        plan
    }

    /// Whether the next run is one of the second program. There is no next run when the plan is
    /// done.
    pub fn next_run(&self) -> (second: Option<bool>)
        ensures
            match second {
                Some(second) => self.taken < self.runs() && second == self.turns_to_second(),
                None => self.taken >= self.runs(),
            },
    {
        let rounds: u64 = self.warmup as u64 + self.measured as u64;
        let runs: u64 = if self.pair {
            2 * rounds
        } else {
            rounds
        };
        if self.taken >= runs {
            None
        } else {
            Some(self.pair && self.taken % 2 == 1)
        }
    }

    /// Takes in the time of the next run.
    pub fn record(&mut self, time: u128)
        requires
            old(self).taken < old(self).runs(),
        ensures
            final(self).warmup == old(self).warmup,
            final(self).measured == old(self).measured,
            final(self).pair == old(self).pair,
            final(self).taken == old(self).taken + 1,
            final(self).first@ == if old(self).keeps() && !old(self).turns_to_second() {
                old(self).first@.push(time)
            } else {
                old(self).first@
            },
            final(self).second@ == if old(self).keeps() && old(self).turns_to_second() {
                old(self).second@.push(time)
            } else {
                old(self).second@
            },
    {
        let dropped: u64 = if self.pair {
            2 * (self.warmup as u64)
        } else {
            self.warmup as u64
        };
        if self.taken >= dropped {
            if self.pair && self.taken % 2 == 1 {
                self.second.push(time);
            } else {
                self.first.push(time);
            }
        }
        self.taken = self.taken + 1;
    }
}

/// The times at place `offset` of every round of `width` runs after the warm-up rounds.
pub open spec fn kept(times: Seq<u128>, warmup: int, width: int, offset: int) -> Seq<u128>
    decreases times.len(),
{
    if times.len() == 0 {
        Seq::empty()
    } else {
        let at = times.len() - 1;
        let before = kept(times.drop_last(), warmup, width, offset);
        if at >= warmup * width && at % width == offset {
            before.push(times.last())
        } else {
            before
        }
    }
}

/// Recording one more time extends the times that a plan has taken.
pub proof fn recording_extends_a_plan(
    before: Sampling,
    after: Sampling,
    times: Seq<u128>,
    time: u128,
)
    requires
        before.has_taken(times),
        before.taken < before.runs(),
        after.warmup == before.warmup,
        after.measured == before.measured,
        after.pair == before.pair,
        after.taken == before.taken + 1,
        after.first@ == if before.keeps() && !before.turns_to_second() {
            before.first@.push(time)
        } else {
            before.first@
        },
        after.second@ == if before.keeps() && before.turns_to_second() {
            before.second@.push(time)
        } else {
            before.second@
        },
    ensures
        after.has_taken(times.push(time)),
{
    assert(times.push(time).drop_last() =~= times);
}

/// A finished plan keeps the same number of times of each program, and they alternate: sample `i`
/// of the second program was timed right after sample `i` of the first.
pub proof fn samples_alternate(plan: Sampling, times: Seq<u128>)
    requires
        plan.has_taken(times),
        plan.taken == plan.runs(),
    ensures
        plan.first@.len() == plan.measured,
        plan.second@.len() == if plan.pair {
            plan.measured as int
        } else {
            0
        },
        forall|i: int|
            0 <= i < plan.measured ==> #[trigger] plan.first@[i] == times[(plan.warmup + i)
                * plan.width()],
        plan.pair ==> forall|i: int|
            0 <= i < plan.measured ==> #[trigger] plan.second@[i] == times[(plan.warmup + i) * 2
                + 1],
{
    lemma_kept(times, plan.warmup as int, plan.measured as int, plan.width(), 0);
    if plan.pair {
        lemma_kept(times, plan.warmup as int, plan.measured as int, 2, 1);
    }
}

/// After `rounds` measured rounds there are `rounds` times at each place of a round.
proof fn lemma_kept(times: Seq<u128>, warmup: int, rounds: int, width: int, offset: int)
    requires
        warmup >= 0,
        rounds >= 0,
        1 <= width <= 2,
        0 <= offset < width,
        times.len() == (warmup + rounds) * width,
    ensures
        kept(times, warmup, width, offset).len() == rounds,
        forall|i: int|
            0 <= i < rounds ==> #[trigger] kept(times, warmup, width, offset)[i] == times[(warmup
                + i) * width + offset],
    decreases rounds,
{
    if rounds == 0 {
        lemma_warmup_is_dropped(times, warmup, width, offset);
    } else if width == 1 {
        let shorter = times.drop_last();
        lemma_kept(shorter, warmup, rounds - 1, width, offset);
    } else {
        let middle = times.drop_last();
        let shorter = middle.drop_last();
        lemma_kept(shorter, warmup, rounds - 1, width, offset);
        reveal_with_fuel(kept, 3);
        assert(shorter.len() % 2 == 0);
    }
}

proof fn lemma_warmup_is_dropped(times: Seq<u128>, warmup: int, width: int, offset: int)
    requires
        times.len() <= warmup * width,
    ensures
        kept(times, warmup, width, offset).len() == 0,
    decreases times.len(),
{
    if times.len() > 0 {
        lemma_warmup_is_dropped(times.drop_last(), warmup, width, offset);
    }
}

} // verus!
