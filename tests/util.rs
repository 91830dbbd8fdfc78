use bandwidth_bench::duration::Duration;
use bandwidth_bench::util::{drop_outliers, random_vec};

fn secs(values: &[u64]) -> Vec<Duration> {
    values.iter().map(|&s| Duration::from_secs(s)).collect()
}

#[test]
fn util_test_random_vec() {
    let vec = random_vec::<u8>(10);
    assert_eq!(vec.len(), 10);
}

#[test]
fn util_test_drop_outliers() {
    let data = secs(&[1, 2, 3, 4, 5]);
    let outliers = 2;

    let result = drop_outliers(&data, outliers);

    assert_eq!(result, secs(&[2, 3, 4]));
}

#[test]
fn drop_no_outliers_is_identity() {
    let data = secs(&[5, 1, 4, 1, 9]);
    assert_eq!(drop_outliers(&data, 0), data);
}

#[test]
fn drop_outliers_of_empty_is_empty() {
    assert_eq!(drop_outliers(&Vec::new(), 0), Vec::new());
}

#[test]
fn drop_all_outliers_is_empty() {
    let data = secs(&[3, 1, 2]);
    assert_eq!(drop_outliers(&data, 3), Vec::new());
}

#[test]
fn drop_outliers_ties_drop_the_earlier_sample() {
    // mean 3: 1 and 5 are equally far; the earlier one goes first
    let data = secs(&[1, 2, 3, 4, 5]);
    assert_eq!(drop_outliers(&data, 1), secs(&[2, 3, 4, 5]));
    // all equal: the first ones go
    let data = secs(&[7, 7, 7, 7]);
    assert_eq!(drop_outliers(&data, 2), secs(&[7, 7]));
}

#[test]
fn drop_outliers_keeps_input_order() {
    // mean 12: distances 8, 3, 4, 11, 12; 0 and 23 are dropped
    let data = secs(&[20, 9, 8, 23, 0]);
    assert_eq!(drop_outliers(&data, 2), secs(&[20, 9, 8]));
}

#[test]
fn drop_outliers_uses_the_exact_mean() {
    // mean 4/3 ns: 1 is nearer than 2
    let data: Vec<Duration> = [1u128, 1, 2].iter().map(|&n| Duration::from_nanos(n)).collect();
    let kept = drop_outliers(&data, 1);
    assert_eq!(kept, vec![Duration::from_nanos(1), Duration::from_nanos(1)]);
}
