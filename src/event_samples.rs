use vstd::prelude::*;

use std::time::Instant;

use vstd::arithmetic::div_mod::lemma_fundamental_div_mod_converse;

use crate::duration::{Duration, NANOS_PER_SEC};
use crate::error::TrialError;
use crate::stats::{
    drop_outliers_of, floor_mean, is_isqrt, nanos_seq,
    std_dev_floor, sum, sum_sq_dev, to_nanos, variance_floor,
};
use crate::util::drop_outliers;

verus! {

broadcast use vstd::function::group_function_axioms;

#[verifier::external_type_specification]
#[verifier::external_body]
pub struct ExInstant(Instant);

/// Relies on `std::time::Instant::now`: a reading of the monotonic clock.
#[verifier::external_body]
fn clock_now() -> Instant {
    Instant::now()
}

/// Relies on `std::time::Instant::saturating_duration_since`: the time from `start`
/// to `end` (zero where `end` is earlier), as whole seconds and the nanoseconds
/// beyond them, which `Duration::subsec_nanos` keeps below one second.
#[verifier::external_body]
fn elapsed_parts(start: &Instant, end: &Instant) -> (r: (u64, u32))
    ensures
        r.1 < NANOS_PER_SEC,
{
    let d = end.saturating_duration_since(*start);
    (d.as_secs(), d.subsec_nanos())
}

/// Durations of events, in the order in which they were recorded.
#[derive(Debug)]
pub struct EventSamples {
    pub durations: Vec<Duration>,
}

/// Summary statistics of a set of durations.
#[derive(Clone, Copy, Debug, PartialEq, Eq, Structural)]
pub struct TimingStats {
    /// Mean event duration.
    pub mean: Duration,
    /// Standard deviation of the event durations.
    pub std_dev: Duration,
    /// The number of samples used in the statistics.
    pub samples: usize,
    /// The number of outliers dropped from the statistics.
    pub outliers: usize,
}

/// Whether the exact statistics of `kept` can be computed in 128-bit arithmetic:
/// the squared distances from the rounded-down mean must sum to at most `u128::MAX`.
pub open spec fn stats_fit(kept: Seq<int>) -> bool {
    sum_sq_dev(kept, sum(kept) / (kept.len() as int)) <= u128::MAX
}

/// `st` summarises `ds` with its `k` farthest samples from the mean dropped: the
/// mean is rounded down to the nanosecond, the standard deviation is the integer
/// square root of the rounded-down sample variance.
pub open spec fn summarises(st: TimingStats, ds: Seq<Duration>, k: int) -> bool {
    let kept = nanos_seq(drop_outliers_of(ds, k));
    let m = ds.len() - k;
    &&& st.mean@ == sum(kept) / m
    &&& is_isqrt(st.std_dev@ as int, variance_floor(kept))
    &&& st.samples == m
    &&& st.outliers == k
}

impl EventSamples {
    /// An empty list of event durations.
    pub fn new() -> (r: Self)
        ensures
            r.durations@ == Seq::<Duration>::empty(),
    {
        Self { durations: Vec::new() }
    }

    /// Appends one event duration.
    pub fn push(&mut self, duration: Duration)
        ensures
            final(self).durations@ == old(self).durations@.push(duration),
    {
        self.durations.push(duration);
    }

    /// Runs `f` `reps` times and records how long each run took, in call order.
    pub fn time_events<F: FnMut()>(reps: usize, mut f: F) -> (r: Self)
        requires
            call_requires(f, ()),
        ensures
            r.durations.len() == reps,
    {
        let mut samples = Self::new();
        let mut i: usize = 0;
        while i < reps
            invariant
                0 <= i <= reps,
                samples.durations.len() == i,
                call_requires(f, ()),
            decreases reps - i,
        {
            let t_0 = clock_now();
            f();
            let t_1 = clock_now();
            let (secs, nanos) = elapsed_parts(&t_0, &t_1);
            assert(secs * NANOS_PER_SEC + nanos <= crate::duration::MAX_NANOS) by (nonlinear_arith)
                requires
                    secs <= u64::MAX,
                    nanos < NANOS_PER_SEC,
            ;
            samples.push(Duration::new(secs, nanos));
            i = i + 1;
        }
        samples
    }

    /// Calls the trial function `f` `reps` times and records the durations it
    /// reports, in call order.
    ///
    /// Use this where each trial needs setup or teardown outside the timed interval.
    pub fn sample_events<F: FnMut() -> Duration>(reps: usize, mut f: F) -> (r: Self)
        requires
            call_requires(f, ()),
        ensures
            r.durations.len() == reps,
            forall|i: int| 0 <= i < reps ==> call_ensures(f, (), #[trigger] r.durations[i]),
    {
        let ghost f_0 = f;
        let mut samples = Self::new();
        let mut i: usize = 0;
        while i < reps
            invariant
                0 <= i <= reps,
                samples.durations.len() == i,
                f == f_0,
                call_requires(f, ()),
                forall|j: int| 0 <= j < i ==> call_ensures(f, (), #[trigger] samples.durations[j]),
            decreases reps - i,
        {
            let d = f();
            samples.push(d);
            i = i + 1;
        }
        samples
    }

    /// Timing statistics of the durations with the `outliers` farthest from their
    /// mean dropped.
    pub fn timing_stats(&self, outliers: usize) -> (r: Result<TimingStats, TrialError>)
        ensures
            outliers >= self.durations.len() ==> r == Err::<TimingStats, TrialError>(
                TrialError::InvalidTrimCount,
            ),
            outliers < self.durations.len() ==> {
                let kept = nanos_seq(drop_outliers_of(self.durations@, outliers as int));
                if stats_fit(kept) {
                    r matches Ok(st) && summarises(st, self.durations@, outliers as int)
                } else {
                    r == Err::<TimingStats, TrialError>(TrialError::Overflow)
                }
            },
    {
        let n = self.durations.len();
        if outliers >= n {
            return Err(TrialError::InvalidTrimCount);
        }
        let kept = drop_outliers(&self.durations, outliers);
        let xs = to_nanos(&kept);
        let (q, r) = floor_mean(&xs);
        let m = n - outliers;
        proof {
            lemma_fundamental_div_mod_converse(sum(nanos_seq(kept@)), m as int, q as int, r as int);
        }
        match std_dev_floor(&xs, q, r) {
            None => Err(TrialError::Overflow),
            Some(sd) => Ok(
                TimingStats {
                    mean: Duration::from_nanos(q),
                    std_dev: Duration::from_nanos(sd),
                    samples: m,
                    outliers,
                },
            ),
        }
    }
}

} // verus!
