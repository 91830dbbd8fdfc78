use bandwidth_bench::rand_util::random_vec;

#[test]
fn rand_util_test_random_vec() {
    let vec = random_vec::<u8>(10);
    assert_eq!(vec.len(), 10);
}

#[test]
fn random_vec_of_zero_is_empty() {
    let vec = random_vec::<i32>(0);
    assert!(vec.is_empty());
}

#[test]
fn random_vec_is_not_constant() {
    let vec = random_vec::<u64>(64);
    assert!(vec.iter().any(|&v| v != vec[0]));
}
