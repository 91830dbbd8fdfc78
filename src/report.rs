use vstd::prelude::*;

use crate::bandwidth_stats::{BandwidthStats, BandwidthTrials};
use crate::error::TrialError;
use crate::event_samples::{EventSamples, stats_fit, summarises};
use crate::stats::{drop_outliers_of, nanos_seq};

verus! {

broadcast use vstd::function::group_function_axioms;

/// Bytes in one element of a transfer buffer (a 32-bit integer).
pub const ELEMENT_BYTES: usize = 4;

/// A report of I/O bandwidth trials in both directions.
#[derive(Debug)]
pub struct BackendIoReport {
    /// Text description of the backend.
    pub backend: String,
    /// Text description of the device.
    pub device: String,
    /// Trials for sending data from the CPU to the backend.
    pub to_backend: BandwidthTrials,
    /// Trials for sending data from the backend to the CPU.
    pub from_backend: BandwidthTrials,
}

/// The number of elements in a buffer of `payload_size` bytes; an error where not
/// even one element fits.
pub fn element_count(payload_size: usize) -> (r: Result<usize, TrialError>)
    ensures
        payload_size < ELEMENT_BYTES ==> r == Err::<usize, TrialError>(
            TrialError::InvalidPayloadSize,
        ),
        payload_size >= ELEMENT_BYTES ==> r == Ok::<usize, TrialError>(
            payload_size / ELEMENT_BYTES,
        ),
{
    let len = payload_size / ELEMENT_BYTES;
    if len == 0 {
        Err(TrialError::InvalidPayloadSize)
    } else {
        Ok(len)
    }
}

/// What `run_trials` makes of one payload size: its record, and the raw samples that
/// `sample` may have returned for it.
pub open spec fn trial_of<F: FnMut(usize, usize) -> EventSamples>(
    b: BandwidthStats,
    sample: F,
    size: usize,
    total: usize,
    outliers: usize,
) -> bool {
    &&& b.payload_size == size
    &&& b.bandwidth.bytes == size
    &&& b.bandwidth.duration == b.timing_stats.mean
    &&& b.timing_stats.samples == total - outliers
    &&& b.timing_stats.outliers == outliers
    &&& exists|s: EventSamples|
        #[trigger] call_ensures(sample, (size / ELEMENT_BYTES, total), s) && summarises(
            b.timing_stats,
            s.durations@,
            outliers as int,
        )
}

/// Whether `sample` may return, for a payload of `size` bytes, samples whose exact
/// statistics do not fit in 128-bit arithmetic once `outliers` are dropped.
pub open spec fn may_overflow<F: FnMut(usize, usize) -> EventSamples>(
    sample: F,
    size: usize,
    total: usize,
    outliers: usize,
) -> bool {
    exists|s: EventSamples|
        #[trigger] call_ensures(sample, (size / ELEMENT_BYTES, total), s) && !stats_fit(
            nanos_seq(drop_outliers_of(s.durations@, outliers as int)),
        )
}

/// Whether `sample` may return, for some payload size of `sizes`, samples whose
/// exact statistics do not fit in 128-bit arithmetic.
pub open spec fn may_overflow_any<F: FnMut(usize, usize) -> EventSamples>(
    sample: F,
    sizes: Seq<usize>,
    total: usize,
    outliers: usize,
) -> bool {
    exists|i: int| 0 <= i < sizes.len() && may_overflow(sample, #[trigger] sizes[i], total, outliers)
}

/// Runs one trial per payload size, in the order given.
///
/// `sample(len, total)` prepares a buffer of `len` elements and returns `total` timed
/// transfers of it. Each trial takes `reps + outliers` samples and drops the
/// `outliers` farthest from their mean. The arguments are checked before any
/// trial runs: their sum must fit, `reps` must be positive and every payload must
/// hold at least one element.
pub fn run_trials<F: FnMut(usize, usize) -> EventSamples>(
    sizes: &[usize],
    reps: usize,
    outliers: usize,
    sample: F,
) -> (r: Result<BandwidthTrials, TrialError>)
    requires
        forall|len: usize, total: usize| call_requires(sample, (len, total)),
        forall|len: usize, total: usize, s: EventSamples|
            call_ensures(sample, (len, total), s) ==> s.durations.len() == total,
    ensures
        reps + outliers > usize::MAX ==> r == Err::<BandwidthTrials, TrialError>(
            TrialError::Overflow,
        ),
        reps + outliers <= usize::MAX && reps == 0 ==> r == Err::<BandwidthTrials, TrialError>(
            TrialError::InvalidTrimCount,
        ),
        reps + outliers <= usize::MAX && reps > 0 && (exists|i: int|
            0 <= i < sizes@.len() && #[trigger] sizes@[i] < ELEMENT_BYTES) ==> r == Err::<
            BandwidthTrials,
            TrialError,
        >(TrialError::InvalidPayloadSize),
        reps + outliers <= usize::MAX && reps > 0 && (forall|i: int|
            0 <= i < sizes@.len() ==> #[trigger] sizes@[i] >= ELEMENT_BYTES) ==> (r is Ok || (r
            == Err::<BandwidthTrials, TrialError>(TrialError::Overflow) && may_overflow_any(
            sample,
            sizes@,
            (reps + outliers) as usize,
            outliers,
        ))),
        reps + outliers <= usize::MAX && reps > 0 && sizes@.len() == 0 ==> (r matches Ok(t)
            && t.trials.len() == 0),
        r matches Ok(t) ==> t.trials.len() == sizes@.len() && forall|i: int|
            0 <= i < sizes@.len() ==> trial_of(
                #[trigger] t.trials[i],
                sample,
                sizes@[i],
                (reps + outliers) as usize,
                outliers,
            ),
{
    let ghost sample_0 = sample;
    let mut sampler = sample;
    let total = match reps.checked_add(outliers) {
        Some(t) => t,
        None => return Err(TrialError::Overflow),
    };
    if reps == 0 {
        return Err(TrialError::InvalidTrimCount);
    }
    let mut i: usize = 0;
    while i < sizes.len()
        invariant
            0 <= i <= sizes@.len(),
            total == reps + outliers,
            reps > 0,
            forall|j: int| 0 <= j < i ==> #[trigger] sizes@[j] >= ELEMENT_BYTES,
        decreases sizes@.len() - i,
    {
        if element_count(sizes[i]).is_err() {
            return Err(TrialError::InvalidPayloadSize);
        }
        i = i + 1;
    }
    let mut trials: Vec<BandwidthStats> = Vec::new();
    let mut i: usize = 0;
    while i < sizes.len()
        invariant
            0 <= i <= sizes@.len(),
            total == reps + outliers,
            reps > 0,
            sampler == sample_0,
            sample == sample_0,
            forall|len: usize, total: usize| call_requires(sampler, (len, total)),
            forall|len: usize, total: usize, s: EventSamples|
                call_ensures(sampler, (len, total), s) ==> s.durations.len() == total,
            forall|j: int| 0 <= j < sizes@.len() ==> #[trigger] sizes@[j] >= ELEMENT_BYTES,
            trials.len() == i,
            forall|j: int|
                0 <= j < i ==> trial_of(#[trigger] trials[j], sample_0, sizes@[j], total, outliers),
        decreases sizes@.len() - i,
    {
        let size = sizes[i];
        let samples = sampler(size / ELEMENT_BYTES, total);
        let stats = match BandwidthStats::from_samples(size, outliers, &samples) {
            Ok(b) => b,
            Err(e) => {
                assert(e == TrialError::Overflow);
                assert(may_overflow(sample_0, sizes@[i as int], total, outliers));
                assert(may_overflow_any(sample_0, sizes@, total, outliers));
                return Err(e);
            },
        };
        assert(trial_of(stats, sample_0, size, total, outliers));
        trials.push(stats);
        i = i + 1;
    }
    Ok(BandwidthTrials { trials })
}

} // verus!
