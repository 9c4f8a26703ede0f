//! Target tracking: watching the classified-pixel count of a region until it
//! shows that the target was struck.
//!
//! A session takes one sample after another. The caller captures and counts;
//! the [`Tracker`] decides after each sample whether the session goes on.
//! [`track`] runs a whole session over samples that are already at hand.

use vstd::prelude::*;
use crate::classifier::{count_target_pixels, target_count, ColorRule};
use crate::error::Error;
use crate::frame::Frame;
use crate::geometry::DEFAULT_TARGET_RADIUS;

verus! {

/// When a count shows a strike.
#[derive(Clone, Copy, Debug, PartialEq, Eq, Structural)]
pub enum TriggerPolicy {
    /// The count lies more than `delta` above the baseline.
    DeltaFromBaseline { delta: usize },
    /// The count has reached `threshold`, whatever the baseline.
    Saturation { threshold: usize },
}

/// Which count becomes the baseline of a session.
#[derive(Clone, Copy, Debug, PartialEq, Eq, Structural)]
pub enum BaselinePolicy {
    /// The first count that is not zero.
    FirstNonzero,
    /// The first count.
    First,
}

/// How the samples of a session are spaced in time.
#[derive(Clone, Copy, Debug, PartialEq, Eq, Structural)]
pub enum Pacing {
    /// One sample every `period` nanoseconds.
    Paced { period: u64 },
    /// One sample after the other, without waiting.
    Unpaced,
}

/// Settings of a tracking session.
#[derive(Clone, Copy, Debug, PartialEq, Eq, Structural)]
pub struct TrackerConfig {
    /// The rule by which pixels are counted.
    pub rule: ColorRule,
    /// When a count shows a strike.
    pub trigger: TriggerPolicy,
    /// Which count becomes the baseline.
    pub baseline: BaselinePolicy,
    /// The most samples that a session takes.
    pub budget: usize,
    /// How the samples are spaced in time.
    pub pacing: Pacing,
    /// Nanoseconds to wait before the first sample.
    pub settle: u64,
    /// Half the side of the square that is watched.
    pub radius: u32,
}

/// Counts above the baseline that show a strike, where nothing else is asked
/// for.
pub const DEFAULT_TRIGGER_DELTA: usize = 300;

/// The lower of the two thresholds that the saturation trigger has been run
/// with.
pub const SATURATION_THRESHOLD_LOW: usize = 5500;

/// The higher of the two thresholds that the saturation trigger has been run
/// with.
pub const SATURATION_THRESHOLD_HIGH: usize = 6200;

/// Samples of a paced session, where nothing else is asked for.
pub const DEFAULT_SAMPLE_BUDGET: usize = 60;

/// Nanoseconds between two samples of a paced session: sixty samples a
/// second, to the whole millisecond.
pub const DEFAULT_PERIOD: u64 = 16_000_000;

/// Nanoseconds before the first sample: ten periods.
pub const DEFAULT_SETTLE: u64 = 160_000_000;

impl Default for TrackerConfig {
    /// The settings of the latest generation of the detection: relative
    /// colour rule, delta from the first count that is not zero, sixty paced
    /// samples after ten periods of settling.
    fn default() -> (config: TrackerConfig)
        ensures
            config == (TrackerConfig {
                rule: ColorRule::Relative,
                trigger: TriggerPolicy::DeltaFromBaseline { delta: DEFAULT_TRIGGER_DELTA },
                baseline: BaselinePolicy::FirstNonzero,
                budget: DEFAULT_SAMPLE_BUDGET,
                pacing: Pacing::Paced { period: DEFAULT_PERIOD },
                settle: DEFAULT_SETTLE,
                radius: DEFAULT_TARGET_RADIUS,
            }),
    {
        TrackerConfig {
            rule: ColorRule::Relative,
            trigger: TriggerPolicy::DeltaFromBaseline { delta: DEFAULT_TRIGGER_DELTA },
            baseline: BaselinePolicy::FirstNonzero,
            budget: DEFAULT_SAMPLE_BUDGET,
            pacing: Pacing::Paced { period: DEFAULT_PERIOD },
            settle: DEFAULT_SETTLE,
            radius: DEFAULT_TARGET_RADIUS,
        }
    }
}

/// One attempt to capture the watched region and count its target-coloured
/// pixels.
#[derive(Clone, Copy, Debug, PartialEq, Eq, Structural)]
pub enum Sample {
    /// The region was captured, and so many of its pixels were
    /// target-coloured.
    Count(usize),
    /// The region could not be captured.
    Failed,
}

/// What a sample showed. `Triggered` and `TimedOut` end a session;
/// `Baseline` and `Rising` tell how it is going and decide nothing.
#[derive(Clone, Copy, Debug, PartialEq, Eq, Structural)]
pub enum TrackingOutcome {
    /// This count became the baseline.
    Baseline(usize),
    /// The count differs from the one before and shows no strike.
    Rising(usize),
    /// The sample with this index, counted from zero, showed a strike with
    /// this count.
    Triggered(usize, usize),
    /// The budget was used up and no sample showed a strike.
    TimedOut,
}

/// The sample that a capture gives: the number of pixels of the frame that
/// are target-coloured by `rule`, and `Failed` where there is no frame.
pub open spec fn sample_for(rule: ColorRule, capture: Option<&Frame>) -> Sample {
    match capture {
        Some(frame) => Sample::Count(
            target_count(rule, frame.bytes(), frame.bytes().len() / 4) as usize,
        ),
        None => Sample::Failed,
    }
}

/// Turns a capture into a sample: counts the target-coloured pixels of the
/// frame, where there is one.
pub fn take_sample(rule: ColorRule, capture: Option<&Frame>) -> (sample: Sample)
    ensures
        sample == sample_for(rule, capture),
{
    match capture {
        Some(frame) => Sample::Count(count_target_pixels(rule, frame.data())),
        None => Sample::Failed,
    }
}

/// Whether `sample` may become the baseline.
pub open spec fn accepts_baseline(policy: BaselinePolicy, sample: Sample) -> bool {
    match sample {
        Sample::Count(c) => policy == BaselinePolicy::First || c != 0,
        Sample::Failed => false,
    }
}

/// The baseline once the samples `seen` were taken: the count of the first
/// of them that may become the baseline, if there is one.
pub open spec fn baseline_after(policy: BaselinePolicy, seen: Seq<Sample>) -> Option<usize>
    decreases seen.len(),
{
    if seen.len() == 0 {
        None
    } else {
        match baseline_after(policy, seen.drop_last()) {
            Some(b) => Some(b),
            None => match seen.last() {
                Sample::Count(c) => if accepts_baseline(policy, seen.last()) {
                    Some(c)
                } else {
                    None
                },
                Sample::Failed => None,
            },
        }
    }
}

/// Whether sample `i` shows a strike. Under the delta policy the baseline is
/// the one that the samples before `i` gave, so the sample that becomes the
/// baseline shows none.
pub open spec fn triggers(config: TrackerConfig, samples: Seq<Sample>, i: int) -> bool {
    samples[i] matches Sample::Count(c) && match config.trigger {
        TriggerPolicy::Saturation { threshold } => c >= threshold,
        TriggerPolicy::DeltaFromBaseline { delta } => baseline_after(
            config.baseline,
            samples.take(i),
        ) matches Some(b) && c > b + delta,
    }
}

/// Whether the session goes on after sample `i`, the budget left aside: the
/// capture worked and the count shows no strike.
pub open spec fn continues(config: TrackerConfig, samples: Seq<Sample>, i: int) -> bool {
    samples[i] is Count && !triggers(config, samples, i)
}

/// Whether sample `i` is a failed capture and the session went on after
/// every sample before it.
pub open spec fn fails_first_at(config: TrackerConfig, samples: Seq<Sample>, i: int) -> bool {
    samples[i] is Failed && forall|j: int| 0 <= j < i ==> #[trigger] continues(config, samples, j)
}

/// How many of `samples` a session looks at, at most: as many as there are,
/// but no more than the budget.
pub open spec fn sample_limit(config: TrackerConfig, samples: Seq<Sample>) -> int {
    if config.budget <= samples.len() {
        config.budget as int
    } else {
        samples.len() as int
    }
}

/// Whether a session that has taken `samples` still goes on: budget is left
/// and no sample has ended it.
pub open spec fn is_open(config: TrackerConfig, samples: Seq<Sample>) -> bool {
    samples.len() < config.budget && forall|j: int|
        0 <= j < samples.len() ==> #[trigger] continues(config, samples, j)
}

/// Whether `result` is how a session over `samples` ends.
///
/// `Triggered(i, c)`: sample `i` is the first that shows a strike, its count
/// is `c`, no capture failed before it, and it lies within the budget.
/// `TimedOut`: no sample within the budget shows a strike or failed.
/// `CaptureError`: a capture within the budget failed, and no sample before
/// it showed a strike.
pub open spec fn is_session_result(
    config: TrackerConfig,
    samples: Seq<Sample>,
    result: Result<TrackingOutcome, Error>,
) -> bool {
    match result {
        Ok(TrackingOutcome::Triggered(i, c)) => {
            &&& i < sample_limit(config, samples)
            &&& samples[i as int] == Sample::Count(c)
            &&& triggers(config, samples, i as int)
            &&& forall|j: int| 0 <= j < i ==> #[trigger] continues(config, samples, j)
        },
        Ok(TrackingOutcome::TimedOut) => forall|j: int|
            0 <= j < sample_limit(config, samples) ==> #[trigger] continues(config, samples, j),
        Ok(_) => false,
        Err(e) => e == Error::CaptureError && exists|i: int|
            0 <= i < sample_limit(config, samples) && #[trigger] fails_first_at(config, samples, i),
    }
}

/// The count of the last sample of `seen`, if it has one.
pub open spec fn last_count(seen: Seq<Sample>) -> Option<usize> {
    if seen.len() == 0 {
        None
    } else {
        match seen.last() {
            Sample::Count(c) => Some(c),
            Sample::Failed => None,
        }
    }
}

/// What sample `i` shows, where the session was open before it: the end of
/// the session first, then a new baseline, then a changed count.
pub open spec fn note_at(config: TrackerConfig, samples: Seq<Sample>, i: int) -> Option<
    TrackingOutcome,
> {
    match samples[i] {
        Sample::Failed => None,
        Sample::Count(c) => if triggers(config, samples, i) {
            Some(TrackingOutcome::Triggered(i as usize, c))
        } else if i + 1 >= config.budget {
            Some(TrackingOutcome::TimedOut)
        } else if baseline_after(config.baseline, samples.take(i)) is None && accepts_baseline(
            config.baseline,
            samples[i],
        ) {
            Some(TrackingOutcome::Baseline(c))
        } else if last_count(samples.take(i)) matches Some(p) && p != c {
            Some(TrackingOutcome::Rising(c))
        } else {
            None
        },
    }
}

/// Whether sample `i` shows a strike depends on the samples up to `i` alone.
pub proof fn lemma_triggers_on_prefix(config: TrackerConfig, samples: Seq<Sample>, n: int, i: int)
    requires
        0 <= i < n <= samples.len(),
    ensures
        triggers(config, samples.take(n), i) == triggers(config, samples, i),
        continues(config, samples.take(n), i) == continues(config, samples, i),
{
    assert(samples.take(n).take(i) =~= samples.take(i));
}

/// Appending a sample leaves every earlier sample's verdict as it was.
proof fn lemma_push_keeps_verdicts(config: TrackerConfig, seen: Seq<Sample>, sample: Sample)
    ensures
        seen.push(sample).take(seen.len() as int) == seen,
        seen.push(sample).drop_last() == seen,
        forall|j: int|
            0 <= j < seen.len() ==> #[trigger] continues(config, seen.push(sample), j)
                == continues(config, seen, j),
{
    let grown = seen.push(sample);
    assert(grown.take(seen.len() as int) =~= seen);
    assert(grown.drop_last() =~= seen);
    assert forall|j: int| 0 <= j < seen.len() implies #[trigger] continues(config, grown, j)
        == continues(config, seen, j) by {
        assert(grown.take(j) =~= seen.take(j));
    }
}

/// The state of one tracking session: its settings and what the samples
/// taken so far have shown. Each session starts from a tracker of its own.
pub struct Tracker {
    config: TrackerConfig,
    baseline: Option<usize>,
    previous: Option<usize>,
    taken: usize,
    result: Option<Result<TrackingOutcome, Error>>,
    seen: Ghost<Seq<Sample>>,
}

impl Tracker {
    #[verifier::type_invariant]
    pub closed spec fn inv(&self) -> bool {
        &&& self.taken == self.seen@.len()
        &&& self.taken <= self.config.budget
        &&& self.baseline == baseline_after(self.config.baseline, self.seen@)
        &&& self.previous == last_count(self.seen@)
        &&& match self.result {
            None => is_open(self.config, self.seen@),
            Some(r) => !is_open(self.config, self.seen@) && is_session_result(
                self.config,
                self.seen@,
                r,
            ) && match r {
                Ok(TrackingOutcome::Triggered(i, _)) => i + 1 == self.taken,
                Ok(_) => true,
                Err(_) => self.taken > 0 && self.seen@.last() is Failed,
            },
        }
    }

    /// The session's settings.
    pub closed spec fn spec_config(&self) -> TrackerConfig {
        self.config
    }

    /// The samples that the session has taken, oldest first.
    pub closed spec fn history(&self) -> Seq<Sample> {
        self.seen@
    }

    /// A session with these settings that has taken no sample yet.
    pub fn new(config: TrackerConfig) -> (tracker: Tracker)
        ensures
            tracker.spec_config() == config,
            tracker.history() == Seq::<Sample>::empty(),
    {
        let result: Option<Result<TrackingOutcome, Error>> = if config.budget == 0 {
            Some(Ok(TrackingOutcome::TimedOut))
        } else {
            None
        };
        Tracker {
            config,
            baseline: None,
            previous: None,
            taken: 0,
            result,
            seen: Ghost(Seq::empty()),
        }
    }

    /// The session's settings.
    #[verifier::when_used_as_spec(spec_config)]
    pub fn config(&self) -> (config: TrackerConfig)
        ensures
            config == self.spec_config(),
    {
        self.config
    }

    /// Whether the session still goes on, so that another sample is to be
    /// taken.
    pub fn is_open(&self) -> (open: bool)
        ensures
            open == is_open(self.spec_config(), self.history()),
    {
        proof {
            use_type_invariant(self);
        }
        self.result.is_none()
    }

    /// How the session ended, once it has.
    pub fn outcome(&self) -> (result: Option<Result<TrackingOutcome, Error>>)
        ensures
            result is None <==> is_open(self.spec_config(), self.history()),
            result matches Some(r) ==> is_session_result(self.spec_config(), self.history(), r),
    {
        proof {
            use_type_invariant(self);
        }
        self.result
    }

    /// Whether the caller is to sleep to its next deadline before it goes on:
    /// after every sample but one that showed a strike or that failed, and so
    /// after the last sample of a session that timed out, too.
    pub fn pause_due(&self) -> (due: bool)
        ensures
            due == (self.history().len() > 0 && continues(
                self.spec_config(),
                self.history(),
                self.history().len() - 1,
            )),
    {
        proof {
            use_type_invariant(self);
        }
        match self.result {
            None => self.taken > 0,
            Some(Ok(TrackingOutcome::Triggered(_, _))) => false,
            Some(Ok(_)) => self.taken > 0,
            Some(Err(_)) => false,
        }
    }

    /// The baseline that the samples taken so far have given.
    pub fn baseline(&self) -> (baseline: Option<usize>)
        ensures
            baseline == baseline_after(self.spec_config().baseline, self.history()),
    {
        proof {
            use_type_invariant(self);
        }
        self.baseline
    }

    /// Takes the next sample into the session and tells what it showed.
    ///
    /// A session that has ended stays as it is and has nothing to tell.
    pub fn observe(&mut self, sample: Sample) -> (note: Option<TrackingOutcome>)
        ensures
            final(self).spec_config() == old(self).spec_config(),
            is_open(old(self).spec_config(), old(self).history()) ==> final(self).history() == old(
                self,
            ).history().push(sample) && note == note_at(
                old(self).spec_config(),
                final(self).history(),
                old(self).history().len() as int,
            ),
            !is_open(old(self).spec_config(), old(self).history()) ==> final(self).history() == old(
                self,
            ).history() && note is None,
    {
        proof {
            use_type_invariant(&*self);
        }
        if self.result.is_some() {
            return None;
        }
        let config: TrackerConfig = self.config;
        let index: usize = self.taken;
        let ghost seen = self.seen@;
        let ghost grown = seen.push(sample);
        proof {
            lemma_push_keeps_verdicts(config, seen, sample);
        }
        match sample {
            Sample::Failed => {
                proof {
                    assert(fails_first_at(config, grown, index as int));
                    assert(!continues(config, grown, index as int));
                }
                *self = Tracker {
                    config,
                    baseline: self.baseline,
                    previous: None,
                    taken: index + 1,
                    result: Some(Err(Error::CaptureError)),
                    seen: Ghost(grown),
                };
                None
            },
            Sample::Count(count) => {
                let hit: bool = match config.trigger {
                    TriggerPolicy::Saturation { threshold } => count >= threshold,
                    TriggerPolicy::DeltaFromBaseline { delta } => match self.baseline {
                        Some(b) => count > b && count - b > delta,
                        None => false,
                    },
                };
                assert(hit == triggers(config, grown, index as int));
                let becomes_baseline: bool = self.baseline.is_none() && match config.baseline {
                    BaselinePolicy::First => true,
                    BaselinePolicy::FirstNonzero => count != 0,
                };
                let baseline: Option<usize> = if becomes_baseline {
                    Some(count)
                } else {
                    self.baseline
                };
                let changed: bool = match self.previous {
                    Some(p) => p != count,
                    None => false,
                };
                let last: bool = index + 1 >= config.budget;
                let note: Option<TrackingOutcome> = if hit {
                    Some(TrackingOutcome::Triggered(index, count))
                } else if last {
                    Some(TrackingOutcome::TimedOut)
                } else if becomes_baseline {
                    Some(TrackingOutcome::Baseline(count))
                } else if changed {
                    Some(TrackingOutcome::Rising(count))
                } else {
                    None
                };
                let result: Option<Result<TrackingOutcome, Error>> = if hit {
                    Some(Ok(TrackingOutcome::Triggered(index, count)))
                } else if last {
                    Some(Ok(TrackingOutcome::TimedOut))
                } else {
                    None
                };
                proof {
                    if hit {
                        assert(!continues(config, grown, index as int));
                    } else {
                        assert(continues(config, grown, index as int));
                    }
                }
                *self = Tracker {
                    config,
                    baseline,
                    previous: Some(count),
                    taken: index + 1,
                    result,
                    seen: Ghost(grown),
                };
                note
            },
        }
    }
}

/// The samples of a session in which every capture worked and gave these
/// counts.
pub open spec fn captured(counts: Seq<usize>) -> Seq<Sample> {
    counts.map_values(|c: usize| Sample::Count(c))
}

/// The baseline is the count of the first sample that may become it.
pub proof fn lemma_baseline_is_first_accepted(policy: BaselinePolicy, seen: Seq<Sample>, i: int)
    requires
        0 <= i < seen.len(),
        accepts_baseline(policy, seen[i]),
        forall|j: int| 0 <= j < i ==> !accepts_baseline(policy, #[trigger] seen[j]),
    ensures
        baseline_after(policy, seen) matches Some(b) && seen[i] == Sample::Count(b),
    decreases seen.len(),
{
    let earlier = seen.drop_last();
    if i < earlier.len() {
        lemma_baseline_is_first_accepted(policy, earlier, i);
    } else {
        lemma_no_baseline_without_accepted(policy, earlier);
    }
}

/// There is no baseline while no sample may become it.
pub proof fn lemma_no_baseline_without_accepted(policy: BaselinePolicy, seen: Seq<Sample>)
    requires
        forall|j: int| 0 <= j < seen.len() ==> !accepts_baseline(policy, #[trigger] seen[j]),
    ensures
        baseline_after(policy, seen) is None,
    decreases seen.len(),
{
    if seen.len() > 0 {
        lemma_no_baseline_without_accepted(policy, seen.drop_last());
    }
}

/// A session ends in one way only.
pub proof fn lemma_session_result_is_unique(
    config: TrackerConfig,
    samples: Seq<Sample>,
    a: Result<TrackingOutcome, Error>,
    b: Result<TrackingOutcome, Error>,
)
    requires
        is_session_result(config, samples, a),
        is_session_result(config, samples, b),
    ensures
        a == b,
{
    let limit = sample_limit(config, samples);
    let stop_a = match a {
        Ok(TrackingOutcome::Triggered(i, _)) => i as int,
        Ok(_) => limit,
        Err(_) => choose|i: int| 0 <= i < limit && #[trigger] fails_first_at(config, samples, i),
    };
    let stop_b = match b {
        Ok(TrackingOutcome::Triggered(i, _)) => i as int,
        Ok(_) => limit,
        Err(_) => choose|i: int| 0 <= i < limit && #[trigger] fails_first_at(config, samples, i),
    };
    assert(forall|j: int| 0 <= j < stop_a ==> #[trigger] continues(config, samples, j));
    assert(forall|j: int| 0 <= j < stop_b ==> #[trigger] continues(config, samples, j));
    assert(stop_a < limit ==> !continues(config, samples, stop_a));
    assert(stop_b < limit ==> !continues(config, samples, stop_b));
    if stop_a < stop_b {
        assert(continues(config, samples, stop_a));
    } else if stop_b < stop_a {
        assert(continues(config, samples, stop_b));
    }
}

/// A steady count and then a spike: where the first `n` captures, `n` at least
/// one, all count `low`, a count that may become the baseline, and capture `n`
/// counts more than `low` and the delta together, the session ends with
/// `Triggered(n, spike)`.
pub proof fn lemma_spike_after_steady_count(
    config: TrackerConfig,
    counts: Seq<usize>,
    n: int,
    low: usize,
    spike: usize,
    result: Result<TrackingOutcome, Error>,
)
    requires
        config.trigger matches TriggerPolicy::DeltaFromBaseline { delta } && spike > low + delta,
        accepts_baseline(config.baseline, Sample::Count(low)),
        1 <= n < counts.len(),
        n < config.budget,
        forall|i: int| 0 <= i < n ==> counts[i] == low,
        counts[n] == spike,
        is_session_result(config, captured(counts), result),
    ensures
        result == Ok::<TrackingOutcome, Error>(TrackingOutcome::Triggered(n as usize, spike)),
{
    let samples = captured(counts);
    assert forall|j: int| 0 <= j < n implies #[trigger] continues(config, samples, j) by {
        if j > 0 {
            lemma_baseline_is_first_accepted(config.baseline, samples.take(j), 0);
        }
    }
    lemma_baseline_is_first_accepted(config.baseline, samples.take(n), 0);
    assert(triggers(config, samples, n));
    let expected = Ok::<TrackingOutcome, Error>(TrackingOutcome::Triggered(n as usize, spike));
    assert(is_session_result(config, samples, expected));
    lemma_session_result_is_unique(config, samples, result, expected);
}

/// A steady count for the whole session: where every capture within the
/// budget counts `low`, and `low` lies below the threshold where the trigger
/// is saturation, the session ends with `TimedOut`.
pub proof fn lemma_steady_count_times_out(
    config: TrackerConfig,
    counts: Seq<usize>,
    low: usize,
    result: Result<TrackingOutcome, Error>,
)
    requires
        config.trigger matches TriggerPolicy::Saturation { threshold } ==> low < threshold,
        forall|i: int| 0 <= i < counts.len() && i < config.budget ==> counts[i] == low,
        is_session_result(config, captured(counts), result),
    ensures
        result == Ok::<TrackingOutcome, Error>(TrackingOutcome::TimedOut),
{
    let samples = captured(counts);
    assert forall|j: int| 0 <= j < sample_limit(config, samples) implies #[trigger] continues(
        config,
        samples,
        j,
    ) by {
        if j > 0 && accepts_baseline(config.baseline, Sample::Count(low)) {
            lemma_baseline_is_first_accepted(config.baseline, samples.take(j), 0);
        } else {
            lemma_no_baseline_without_accepted(config.baseline, samples.take(j));
        }
    }
    let expected = Ok::<TrackingOutcome, Error>(TrackingOutcome::TimedOut);
    assert(is_session_result(config, samples, expected));
    lemma_session_result_is_unique(config, samples, result, expected);
}

/// Saturation: where capture `i` lies within the budget and is the first
/// whose count has reached the threshold, the session ends with
/// `Triggered(i, counts[i])`, and so with no earlier sample.
pub proof fn lemma_saturation_triggers_at_first_crossing(
    config: TrackerConfig,
    counts: Seq<usize>,
    i: int,
    result: Result<TrackingOutcome, Error>,
)
    requires
        0 <= i < counts.len(),
        i < config.budget,
        config.trigger matches TriggerPolicy::Saturation { threshold } && counts[i] >= threshold
            && forall|j: int| 0 <= j < i ==> counts[j] < threshold,
        is_session_result(config, captured(counts), result),
    ensures
        result == Ok::<TrackingOutcome, Error>(TrackingOutcome::Triggered(i as usize, counts[i])),
{
    let samples = captured(counts);
    assert forall|j: int| 0 <= j < i implies #[trigger] continues(config, samples, j) by {}
    assert(triggers(config, samples, i));
    let expected = Ok::<TrackingOutcome, Error>(TrackingOutcome::Triggered(i as usize, counts[i]));
    assert(is_session_result(config, samples, expected));
    lemma_session_result_is_unique(config, samples, result, expected);
}

/// How a session ended stays how it ends, whatever samples follow.
pub proof fn lemma_result_is_final(
    config: TrackerConfig,
    samples: Seq<Sample>,
    n: int,
    result: Result<TrackingOutcome, Error>,
)
    requires
        0 <= n <= samples.len(),
        !is_open(config, samples.take(n)),
        is_session_result(config, samples.take(n), result),
    ensures
        is_session_result(config, samples, result),
{
    let seen = samples.take(n);
    assert forall|j: int| 0 <= j < n implies (#[trigger] continues(config, samples, j))
        == continues(config, seen, j) by {
        lemma_triggers_on_prefix(config, samples, n, j);
    }
    match result {
        Ok(TrackingOutcome::Triggered(i, c)) => {
            lemma_triggers_on_prefix(config, samples, n, i as int);
            assert forall|j: int| 0 <= j < i implies #[trigger] continues(config, samples, j) by {
                assert(continues(config, seen, j));
            }
        },
        Ok(TrackingOutcome::TimedOut) => {
            if n < config.budget {
                let j = choose|j: int|
                    0 <= j < seen.len() && !#[trigger] continues(config, seen, j);
                assert(continues(config, seen, j));
            }
            assert forall|j: int|
                0 <= j < sample_limit(config, samples) implies #[trigger] continues(
                config,
                samples,
                j,
            ) by {
                assert(continues(config, seen, j));
            }
        },
        Ok(_) => {},
        Err(_) => {
            let i = choose|i: int|
                0 <= i < sample_limit(config, seen) && #[trigger] fails_first_at(config, seen, i);
            assert forall|j: int| 0 <= j < i implies #[trigger] continues(config, samples, j) by {
                assert(continues(config, seen, j));
            }
            assert(fails_first_at(config, samples, i));
        },
    }
}

/// Runs a session with the settings `config` over `samples`, oldest first.
///
/// The session ends with the first sample that shows a strike or that
/// failed, and with `TimedOut` once the budget is used up or no sample is
/// left. Samples behind the end are not looked at.
pub fn track(config: TrackerConfig, samples: &[Sample]) -> (result: Result<TrackingOutcome, Error>)
    ensures
        is_session_result(config, samples@, result),
{
    let mut tracker = Tracker::new(config);
    let mut i: usize = 0;
    while i < samples.len() && tracker.is_open()
        invariant
            i <= samples@.len(),
            tracker.spec_config() == config,
            tracker.history() == samples@.take(i as int),
        decreases samples@.len() - i,
    {
        let _ = tracker.observe(samples[i]);
        assert(samples@.take(i as int).push(samples@[i as int]) =~= samples@.take(i + 1));
        i = i + 1;
    }
    match tracker.outcome() {
        Some(result) => {
            proof {
                lemma_result_is_final(config, samples@, i as int, result);
            }
            result
        },
        None => {
            assert(samples@.take(i as int) =~= samples@);
            Ok(TrackingOutcome::TimedOut)
        },
    }
}

} // verus!
