//! Finding the case behind a wrong saturation count.
//!
//! A dispatch reports one total over all of its cases. Halving the cases turns that total into
//! the case that produced it.
use vstd::prelude::*;

verus! {

/// A search among the cases from `start` up to `end`, whose total is known to be wrong.
#[derive(Clone, Copy, Debug, PartialEq, Eq, Structural)]
pub struct Search {
    pub start: usize,
    pub end: usize,
    /// The first half was dispatched and its total is right.
    pub first_is_right: bool,
    /// Nothing is left to dispatch; the case at `start` is the answer.
    pub done: bool,
}

impl Search {
    /// There is a case to name, and there are halves as long as the search goes on.
    pub open spec fn wf(self) -> bool {
        &&& self.start < self.end
        &&& !self.done ==> self.end - self.start >= 2
    }

    pub open spec fn middle(self) -> int {
        self.start + (self.end - self.start) / 2
    }

    /// The first case to dispatch next.
    pub open spec fn part_start(self) -> int {
        if self.first_is_right {
            self.middle()
        } else {
            self.start as int
        }
    }

    /// The case after the last one to dispatch next.
    pub open spec fn part_end(self) -> int {
        if self.first_is_right {
            self.end as int
        } else {
            self.middle()
        }
    }

    /// The search over the first `n` cases.
    pub open spec fn over(n: usize) -> Search {
        Search { start: 0, end: n, first_is_right: false, done: n == 1 }
    }

    /// The search after the dispatch of its next part: a part with a wrong total is searched in
    /// turn; when both halves are right although the whole is wrong, the first case stands for
    /// them all.
    pub open spec fn after(self, part_is_wrong: bool) -> Search {
        if part_is_wrong {
            Search {
                start: self.part_start() as usize,
                end: self.part_end() as usize,
                first_is_right: false,
                done: self.part_end() - self.part_start() == 1,
            }
        } else if self.first_is_right {
            Search { done: true, ..self }
        } else {
            Search { first_is_right: true, ..self }
        }
    }

    /// An upper bound on the dispatches that are still to come.
    pub open spec fn remaining(self) -> nat {
        if self.done {
            0
        } else if self.first_is_right {
            (2 * (self.end - self.start) - 1) as nat
        } else {
            (2 * (self.end - self.start)) as nat
        }
    }

    /// Starts a search over the first `n` cases.
    pub fn new(n: usize) -> (search: Search)
        requires
            n > 0,
        ensures
            search == Search::over(n),
            search.wf(),
    {
        Search { start: 0, end: n, first_is_right: false, done: n == 1 }
    }

    /// The cases to dispatch next, from the first up to but not including the second.
    pub fn part(&self) -> (part: Option<(usize, usize)>)
        requires
            self.wf(),
        ensures
            match part {
                Some((lo, hi)) => {
                    &&& !self.done
                    &&& lo == self.part_start()
                    &&& hi == self.part_end()
                    &&& self.start <= lo < hi <= self.end
                    &&& hi - lo < self.end - self.start
                },
                None => self.done,
            },
    {
        if self.done {
            return None;
        }
        let middle: usize = self.start + (self.end - self.start) / 2;
        if self.first_is_right {
            Some((middle, self.end))
        } else {
            Some((self.start, middle))
        }
    }

    /// Takes in whether the total of the part that was dispatched is wrong.
    pub fn observe(&mut self, part_is_wrong: bool)
        requires
            old(self).wf(),
            !old(self).done,
        ensures
            *final(self) == old(self).after(part_is_wrong),
            final(self).wf(),
            final(self).remaining() < old(self).remaining(),
    {
        let middle: usize = self.start + (self.end - self.start) / 2;
        if part_is_wrong {
            if self.first_is_right {
                self.start = middle;
            } else {
                self.end = middle;
            }
            self.first_is_right = false;
            self.done = self.end - self.start == 1;
        } else if self.first_is_right {
            self.done = true;
        } else {
            self.first_is_right = true;
        }
    }
}

/// The case that a search names when `is_wrong` tells of every part whether its total is wrong.
pub open spec fn located(search: Search, is_wrong: spec_fn(int, int) -> bool) -> int
    decreases search.remaining(),
    when search.wf()
{
    if search.done {
        search.start as int
    } else {
        located(search.after(is_wrong(search.part_start(), search.part_end())), is_wrong)
    }
}

/// The sum of `f` over the cases from `lo` up to `hi`.
pub open spec fn total(f: spec_fn(int) -> int, lo: int, hi: int) -> int
    decreases hi - lo,
{
    if hi <= lo {
        0
    } else {
        total(f, lo, hi - 1) + f(hi - 1)
    }
}

/// The total of a range is the sum of the totals of its halves.
pub proof fn total_is_additive(f: spec_fn(int) -> int, lo: int, middle: int, hi: int)
    requires
        lo <= middle <= hi,
    ensures
        total(f, lo, hi) == total(f, lo, middle) + total(f, middle, hi),
    decreases hi - middle,
{
    if middle < hi {
        total_is_additive(f, lo, middle, hi - 1);
    }
}

/// When a dispatch counts case by case, a search that starts from a wrong total names a case
/// whose own count is wrong.
pub proof fn search_names_a_wrong_case(
    n: usize,
    got: spec_fn(int) -> int,
    want: spec_fn(int) -> int,
)
    requires
        n > 0,
        total(got, 0, n as int) != total(want, 0, n as int),
    ensures
        ({
            let is_wrong = |lo: int, hi: int| total(got, lo, hi) != total(want, lo, hi);
            let case = located(Search::over(n), is_wrong);
            0 <= case < n && got(case) != want(case)
        }),
{
    lemma_search(Search::over(n), got, want);
}

proof fn lemma_search(search: Search, got: spec_fn(int) -> int, want: spec_fn(int) -> int)
    requires
        search.wf(),
        search.done ==> search.end - search.start == 1,
        total(got, search.start as int, search.end as int) != total(
            want,
            search.start as int,
            search.end as int,
        ),
        search.first_is_right && !search.done ==> total(got, search.start as int, search.middle())
            == total(want, search.start as int, search.middle()),
    ensures
        ({
            let is_wrong = |lo: int, hi: int| total(got, lo, hi) != total(want, lo, hi);
            let case = located(search, is_wrong);
            search.start <= case < search.end && got(case) != want(case)
        }),
    decreases search.remaining(),
{
    let is_wrong = |lo: int, hi: int| total(got, lo, hi) != total(want, lo, hi);
    let start = search.start as int;
    let end = search.end as int;
    if search.done {
        reveal_with_fuel(total, 2);
        assert(total(got, start, end) == got(start));
        assert(total(want, start, end) == want(start));
    } else {
        total_is_additive(got, start, search.middle(), end);
        total_is_additive(want, start, search.middle(), end);
        let wrong = is_wrong(search.part_start(), search.part_end());
        let next = search.after(wrong);
        lemma_search(next, got, want);
        assert(located(search, is_wrong) == located(next, is_wrong));
    }
}

} // verus!
