//! Pacing: sampling at a fixed period without drift.
//!
//! Times are nanoseconds on a clock of the caller's choice. The deadlines of
//! a paced loop are fixed when it starts: one period after the start, two
//! periods after it, and so on. After each sample the loop sleeps for what
//! is left until the next deadline, and not at all where the deadline has
//! passed, so a slow sample is followed at once by the next and costs no
//! deadline after it.

use vstd::prelude::*;

verus! {

/// The last time that the clock can show.
pub open spec fn end_of_time() -> int {
    u64::MAX as int
}

/// Deadline `k`, counted from zero, of a loop that started at `start`:
/// `k + 1` periods after the start, and the end of time where that lies
/// beyond it.
pub open spec fn deadline_of(start: int, period: int, k: nat) -> int {
    if start + (k + 1) * period <= end_of_time() {
        start + (k + 1) * period
    } else {
        end_of_time()
    }
}

/// Time left at `now` until `deadline`, and zero where it has passed.
pub open spec fn slack_until(deadline: int, now: int) -> int {
    if deadline >= now {
        deadline - now
    } else {
        0
    }
}

/// When a paced loop that started at `start` has slept after its sample
/// `k - 1`, where sample `i` took `work[i]` nanoseconds: it goes to sleep
/// when the sample is done, and wakes at deadline `k - 1` or, where that has
/// passed, at once.
pub open spec fn wake_time(start: int, period: int, work: Seq<int>, k: nat) -> int
    decreases k,
{
    if k == 0 {
        start
    } else {
        let done = wake_time(start, period, work, (k - 1) as nat) + work[k - 1];
        done + slack_until(deadline_of(start, period, (k - 1) as nat), done)
    }
}

/// The deadlines of one paced loop.
pub struct Pacer {
    start: u64,
    period: u64,
    deadline: u64,
    passed: Ghost<nat>,
}

impl Pacer {
    #[verifier::type_invariant]
    pub closed spec fn inv(&self) -> bool {
        self.deadline == deadline_of(self.start as int, self.period as int, self.passed@)
    }

    /// When the loop started.
    pub closed spec fn spec_start(&self) -> u64 {
        self.start
    }

    /// Nanoseconds from one deadline to the next.
    pub closed spec fn spec_period(&self) -> u64 {
        self.period
    }

    /// How many deadlines the loop has slept to.
    pub closed spec fn passed(&self) -> nat {
        self.passed@
    }

    /// The deadline that the loop sleeps to next.
    pub open spec fn spec_deadline(&self) -> int {
        deadline_of(self.spec_start() as int, self.spec_period() as int, self.passed())
    }

    /// The deadlines of a loop that starts at `now`.
    pub fn start(now: u64, period: u64) -> (pacer: Pacer)
        ensures
            pacer.spec_start() == now,
            pacer.spec_period() == period,
            pacer.passed() == 0,
    {
        proof {
            assert((0nat + 1) * period == period) by (nonlinear_arith);
        }
        Pacer { start: now, period, deadline: now.saturating_add(period), passed: Ghost(0) }
    }

    /// The deadline that the loop sleeps to next.
    pub fn deadline(&self) -> (deadline: u64)
        ensures
            deadline == self.spec_deadline(),
    {
        proof {
            use_type_invariant(self);
        }
        self.deadline
    }

    /// How long to sleep at `now`, when a sample is done: until the next
    /// deadline, or not at all where it has passed. The deadline after it
    /// becomes the next.
    pub fn pause(&mut self, now: u64) -> (slack: u64)
        ensures
            slack == slack_until(old(self).spec_deadline(), now as int),
            final(self).spec_start() == old(self).spec_start(),
            final(self).spec_period() == old(self).spec_period(),
            final(self).passed() == old(self).passed() + 1,
    {
        proof {
            use_type_invariant(&*self);
        }
        let slack: u64 = self.deadline.saturating_sub(now);
        let ghost k = self.passed@;
        proof {
            assert((k + 2) * self.period == (k + 1) * self.period + self.period)
                by (nonlinear_arith);
        }
        *self = Pacer {
            start: self.start,
            period: self.period,
            deadline: self.deadline.saturating_add(self.period),
            passed: Ghost(k + 1),
        };
        slack
    }
}

/// A paced loop is never early: it has not slept to a deadline before that
/// deadline has come.
pub proof fn lemma_paced_loop_is_never_early(start: int, period: int, work: Seq<int>, k: nat)
    requires
        k >= 1,
    ensures
        wake_time(start, period, work, k) >= deadline_of(start, period, (k - 1) as nat),
{
}

/// A paced loop keeps time: where no sample takes longer than a period, it
/// has slept to deadline `k - 1` exactly `k` periods after its start. Sixty
/// samples that take next to no time are done sixty periods after the
/// start.
pub proof fn lemma_paced_loop_keeps_time(start: int, period: int, work: Seq<int>, k: nat)
    requires
        0 <= period,
        start + k * period <= end_of_time(),
        k <= work.len(),
        forall|i: int| 0 <= i < k ==> 0 <= #[trigger] work[i] <= period,
    ensures
        wake_time(start, period, work, k) == start + k * period,
    decreases k,
{
    if k > 0 {
        let before = (k - 1) as nat;
        assert(before * period <= k * period && (before + 1) * period == k * period && k * period
            == before * period + period) by (nonlinear_arith)
            requires
                0 <= period,
                before == k - 1,
        ;
        lemma_paced_loop_keeps_time(start, period, work, before);
        assert(deadline_of(start, period, before) == start + k * period);
    } else {
        assert(k * period == 0) by (nonlinear_arith)
            requires
                k == 0,
        ;
    }
}

} // verus!
