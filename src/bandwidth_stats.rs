use vstd::prelude::*;

use crate::duration::{Duration, NANOS_PER_SEC};
use crate::error::TrialError;
use crate::event_samples::{EventSamples, TimingStats, stats_fit, summarises};
use crate::stats::{drop_outliers_of, nanos_seq};

verus! {

/// A number of bytes moved in a span of time.
#[derive(Clone, Copy, Debug, PartialEq, Eq, Structural)]
pub struct Bandwidth {
    /// Number of bytes transferred.
    pub bytes: u64,
    /// Duration of the transfer.
    pub duration: Duration,
}

/// The rate of `bytes` in `nanos` nanoseconds, in whole bytes per second rounded down.
pub open spec fn rate_of(bytes: int, nanos: int) -> int {
    bytes * NANOS_PER_SEC / nanos
}

impl Bandwidth {
    /// The transfer of `bytes` bytes in `duration`.
    pub fn from_bytes(bytes: u64, duration: Duration) -> (r: Self)
        ensures
            r.bytes == bytes,
            r.duration == duration,
    {
        Self { bytes, duration }
    }

    /// The rate in bytes per second, rounded down; an error for an empty duration.
    pub fn bytes_per_second(&self) -> (r: Result<u128, TrialError>)
        ensures
            self.duration@ == 0 ==> r == Err::<u128, TrialError>(TrialError::DegenerateDuration),
            self.duration@ != 0 ==> r == Ok::<u128, TrialError>(
                rate_of(self.bytes as int, self.duration@ as int) as u128,
            ),
    {
        let nanos = self.duration.as_nanos();
        if nanos == 0 {
            return Err(TrialError::DegenerateDuration);
        }
        let scaled = self.bytes as u128 * NANOS_PER_SEC;
        assert(scaled / nanos <= scaled) by (nonlinear_arith)
            requires
                nanos >= 1,
                scaled >= 0,
        ;
        Ok(scaled / nanos)
    }
}

/// The outcome of one bandwidth trial.
#[derive(Clone, Copy, Debug, PartialEq, Eq, Structural)]
pub struct BandwidthStats {
    /// Size of the payload in bytes.
    pub payload_size: usize,
    /// Timing statistics for the trials.
    pub timing_stats: TimingStats,
    /// Mean bandwidth.
    pub bandwidth: Bandwidth,
}

impl BandwidthStats {
    /// The trial of a payload of `payload_size` bytes, whose bandwidth moves that
    /// many bytes in the mean duration.
    pub fn new(payload_size: usize, timing_stats: TimingStats) -> (r: BandwidthStats)
        ensures
            r.payload_size == payload_size,
            r.timing_stats == timing_stats,
            r.bandwidth.bytes == payload_size,
            r.bandwidth.duration == timing_stats.mean,
    {
        let bandwidth = Bandwidth::from_bytes(payload_size as u64, timing_stats.mean);
        BandwidthStats { payload_size, timing_stats, bandwidth }
    }

    /// The trial of a payload of `payload_size` bytes from its raw samples, with the
    /// `outliers` farthest from their mean dropped.
    pub fn from_samples(payload_size: usize, outliers: usize, samples: &EventSamples) -> (r:
        Result<Self, TrialError>)
        ensures
            outliers >= samples.durations.len() ==> r == Err::<Self, TrialError>(
                TrialError::InvalidTrimCount,
            ),
            outliers < samples.durations.len() ==> {
                let kept = nanos_seq(drop_outliers_of(samples.durations@, outliers as int));
                if stats_fit(kept) {
                    r matches Ok(b) && b.payload_size == payload_size && summarises(
                        b.timing_stats,
                        samples.durations@,
                        outliers as int,
                    ) && b.bandwidth.bytes == payload_size && b.bandwidth.duration
                        == b.timing_stats.mean
                } else {
                    r == Err::<Self, TrialError>(TrialError::Overflow)
                }
            },
    {
        match samples.timing_stats(outliers) {
            Ok(timing_stats) => Ok(Self::new(payload_size, timing_stats)),
            Err(e) => Err(e),
        }
    }
}

/// Bandwidth trials, one per payload size.
#[derive(Debug)]
pub struct BandwidthTrials {
    pub trials: Vec<BandwidthStats>,
}

} // verus!
