use bandwidth_bench::bandwidth_stats::{Bandwidth, BandwidthStats};
use bandwidth_bench::duration::Duration;
use bandwidth_bench::error::TrialError;
use bandwidth_bench::event_samples::EventSamples;

#[test]
fn test_bandwidth() {
    let bandwidth = Bandwidth::from_bytes(100, Duration::from_secs(1));
    assert_eq!(bandwidth.bytes_per_second(), Ok(100));
}

#[test]
fn test_bandwidth_stats_from_samples() {
    let mut samples = EventSamples::new();
    samples.push(Duration::from_secs(1));
    samples.push(Duration::from_secs(2));
    samples.push(Duration::from_secs(3));

    let bandwidth_stats = BandwidthStats::from_samples(100, 0, &samples).unwrap();
    assert_eq!(bandwidth_stats.payload_size, 100);
    assert_eq!(bandwidth_stats.timing_stats.samples, 3);
    assert_eq!(bandwidth_stats.bandwidth.bytes_per_second(), Ok(50));
}

#[test]
fn bandwidth_of_zero_duration_fails() {
    let bandwidth = Bandwidth::from_bytes(100, Duration::from_nanos(0));
    assert_eq!(
        bandwidth.bytes_per_second(),
        Err(TrialError::DegenerateDuration)
    );
}

#[test]
fn bandwidth_rounds_down() {
    let bandwidth = Bandwidth::from_bytes(10, Duration::from_secs(3));
    assert_eq!(bandwidth.bytes_per_second(), Ok(3));
    let bandwidth = Bandwidth::from_bytes(1, Duration::from_nanos(1));
    assert_eq!(bandwidth.bytes_per_second(), Ok(1_000_000_000));
    let bandwidth = Bandwidth::from_bytes(u64::MAX, Duration::from_nanos(1));
    assert_eq!(
        bandwidth.bytes_per_second(),
        Ok(u64::MAX as u128 * 1_000_000_000)
    );
}

#[test]
fn bandwidth_stats_new_uses_the_mean() {
    let mut samples = EventSamples::new();
    samples.push(Duration::from_millis(500));
    samples.push(Duration::from_millis(1500));
    let stats = samples.timing_stats(0).unwrap();
    let b = BandwidthStats::new(4096, stats);
    assert_eq!(b.payload_size, 4096);
    assert_eq!(b.bandwidth.bytes, 4096);
    assert_eq!(b.bandwidth.duration, Duration::from_secs(1));
    assert_eq!(b.bandwidth.bytes_per_second(), Ok(4096));
    assert_eq!(b.timing_stats, stats);
}

#[test]
fn from_samples_with_every_sample_dropped_fails() {
    let mut samples = EventSamples::new();
    samples.push(Duration::from_secs(1));
    samples.push(Duration::from_secs(2));
    assert_eq!(
        BandwidthStats::from_samples(100, 2, &samples),
        Err(TrialError::InvalidTrimCount)
    );
}
