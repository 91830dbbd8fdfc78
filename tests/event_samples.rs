use bandwidth_bench::duration::Duration;
use bandwidth_bench::error::TrialError;
use bandwidth_bench::event_samples::EventSamples;

fn samples_of_secs(secs: &[u64]) -> EventSamples {
    let mut samples = EventSamples::new();
    for &s in secs {
        samples.push(Duration::from_secs(s));
    }
    samples
}

#[test]
fn event_samples_test_drop_outliers() {
    let data = vec![
        Duration::from_secs(1),
        Duration::from_secs(2),
        Duration::from_secs(3),
        Duration::from_secs(4),
        Duration::from_secs(5),
    ];
    let outliers = 2;

    let result = bandwidth_bench::util::drop_outliers(&data, outliers);

    assert_eq!(
        result,
        vec![
            Duration::from_secs(2),
            Duration::from_secs(3),
            Duration::from_secs(4),
        ]
    );
}

#[test]
fn test_sample_events() {
    let mut fake_times = vec![
        Duration::from_secs(2),
        Duration::from_secs(3),
        Duration::from_secs(1),
    ];

    let samples = EventSamples::sample_events(3, || fake_times.pop().unwrap());

    assert_eq!(
        samples.durations,
        vec![
            Duration::from_secs(1),
            Duration::from_secs(3),
            Duration::from_secs(2),
        ]
    );
}

#[test]
fn sample_events_keep_call_order() {
    let reported = [2u64, 3, 1];
    let mut calls = 0usize;

    let samples = EventSamples::sample_events(3, || {
        let d = Duration::from_secs(reported[calls]);
        calls += 1;
        d
    });

    assert_eq!(calls, 3);
    assert_eq!(
        samples.durations,
        vec![
            Duration::from_secs(2),
            Duration::from_secs(3),
            Duration::from_secs(1),
        ]
    );
}

#[test]
fn sample_events_zero_reps_is_empty() {
    let samples = EventSamples::sample_events(0, || Duration::from_secs(1));
    assert!(samples.durations.is_empty());
}

#[test]
fn test_timing_stats() {
    let mut samples = EventSamples::new();
    samples.push(Duration::from_secs(1));
    samples.push(Duration::from_secs(2));
    samples.push(Duration::from_secs(3));
    samples.push(Duration::from_secs(4));
    samples.push(Duration::from_secs(5));

    let stats = samples.timing_stats(2).unwrap();

    assert_eq!(stats.mean, Duration::from_secs(3));
    assert_eq!(stats.std_dev, Duration::from_secs(1));
    assert_eq!(stats.samples, 3);
    assert_eq!(stats.outliers, 2);
}

#[test]
fn timing_stats_without_outliers() {
    let samples = samples_of_secs(&[1, 2, 3]);
    let stats = samples.timing_stats(0).unwrap();
    assert_eq!(stats.mean, Duration::from_secs(2));
    assert_eq!(stats.std_dev, Duration::from_secs(1));
    assert_eq!(stats.samples, 3);
    assert_eq!(stats.outliers, 0);
}

#[test]
fn timing_stats_dropping_every_sample_fails() {
    let samples = samples_of_secs(&[1, 2, 3]);
    assert_eq!(samples.timing_stats(3), Err(TrialError::InvalidTrimCount));
    assert_eq!(samples.timing_stats(4), Err(TrialError::InvalidTrimCount));
}

#[test]
fn timing_stats_of_no_samples_fails() {
    let samples = EventSamples::new();
    assert_eq!(samples.timing_stats(0), Err(TrialError::InvalidTrimCount));
}

#[test]
fn timing_stats_single_survivor_has_zero_spread() {
    let samples = samples_of_secs(&[1, 2, 9]);
    let stats = samples.timing_stats(2).unwrap();
    assert_eq!(stats.mean, Duration::from_secs(2));
    assert_eq!(stats.std_dev, Duration::from_nanos(0));
    assert_eq!(stats.samples, 1);
}

#[test]
fn timing_stats_rounds_down_to_the_nanosecond() {
    let mut samples = EventSamples::new();
    samples.push(Duration::from_nanos(1));
    samples.push(Duration::from_nanos(2));
    let stats = samples.timing_stats(0).unwrap();
    // mean 1.5 ns; sample variance 0.5 ns^2
    assert_eq!(stats.mean, Duration::from_nanos(1));
    assert_eq!(stats.std_dev, Duration::from_nanos(0));

    let mut samples = EventSamples::new();
    samples.push(Duration::from_nanos(0));
    samples.push(Duration::from_nanos(10));
    samples.push(Duration::from_nanos(20));
    let stats = samples.timing_stats(0).unwrap();
    // sample variance 100 ns^2
    assert_eq!(stats.mean, Duration::from_nanos(10));
    assert_eq!(stats.std_dev, Duration::from_nanos(10));

    let mut samples = EventSamples::new();
    samples.push(Duration::from_nanos(0));
    samples.push(Duration::from_nanos(3));
    let stats = samples.timing_stats(0).unwrap();
    // sample variance 4.5 ns^2, square root about 2.12
    assert_eq!(stats.mean, Duration::from_nanos(1));
    assert_eq!(stats.std_dev, Duration::from_nanos(2));
}

#[test]
fn timing_stats_reports_overflow() {
    let mut samples = EventSamples::new();
    samples.push(Duration::new(0, 0));
    samples.push(Duration::new(u64::MAX, 999_999_999));
    assert_eq!(samples.timing_stats(0), Err(TrialError::Overflow));
    // both are equally far from the mean: the earlier one is dropped
    let stats = samples.timing_stats(1).unwrap();
    assert_eq!(stats.mean, Duration::new(u64::MAX, 999_999_999));
    assert_eq!(stats.std_dev, Duration::from_nanos(0));
}

#[test]
fn time_events_measures_each_call() {
    let mut calls = 0usize;
    let samples = EventSamples::time_events(3, || {
        calls += 1;
        let start = std::time::Instant::now();
        while start.elapsed() < std::time::Duration::from_millis(2) {}
    });
    assert_eq!(calls, 3);
    assert_eq!(samples.durations.len(), 3);
    for d in &samples.durations {
        assert!(d.as_nanos() >= 2_000_000);
        assert!(d.subsec_nanos() < 1_000_000_000);
    }
}
