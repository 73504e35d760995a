use dscheck::scaling::{
    check_scaling, describe_scaling_error, is_fair, is_rate_within, is_scaling, measure,
    scaling_sizes, Measurement, NodeCounters, Reading, ScalingError,
};

fn m(node_count: u32, traffic: u64, messages: u64, min_load: u64, max_load: u64) -> Measurement {
    Measurement { node_count, duration: 10_000, traffic, messages, min_load, max_load }
}

#[test]
fn sizes_are_one_two_five_and_ten_times() {
    assert_eq!(scaling_sizes(10), Some(vec![10, 20, 50, 100]));
    assert_eq!(scaling_sizes(0), Some(vec![0, 0, 0, 0]));
    assert_eq!(scaling_sizes(429_496_729), Some(vec![429_496_729, 858_993_458, 2_147_483_645, 4_294_967_290]));
    assert_eq!(scaling_sizes(429_496_730), None);
}

#[test]
fn rate_may_grow_twice_as_much_as_the_node_count() {
    let small = m(10, 1000, 100, 10, 20);
    assert!(is_rate_within(1000, &small, 4000, &m(20, 4000, 0, 0, 0)));
    assert!(!is_rate_within(1000, &small, 4001, &m(20, 4001, 0, 0, 0)));
    assert!(is_rate_within(1000, &small, 10_000, &m(50, 10_000, 0, 0, 0)));
    assert!(!is_rate_within(1000, &small, 10_001, &m(50, 10_001, 0, 0, 0)));
}

#[test]
fn rates_are_counts_over_durations() {
    let prev = Measurement { node_count: 10, duration: 10_000, traffic: 1000, messages: 100, min_load: 1, max_load: 1 };
    let cur = Measurement { node_count: 20, duration: 20_000, traffic: 8000, messages: 800, min_load: 1, max_load: 1 };
    assert!(is_scaling(&prev, &cur));
    let cur = Measurement { traffic: 8001, ..cur };
    assert!(!is_scaling(&prev, &cur));
}

#[test]
fn both_rates_must_scale() {
    let small = m(10, 1000, 100, 10, 20);
    assert!(is_scaling(&small, &m(20, 4000, 400, 10, 20)));
    assert!(!is_scaling(&small, &m(20, 4000, 401, 10, 20)));
    assert!(!is_scaling(&small, &m(20, 4001, 400, 10, 20)));
}

#[test]
fn fairness_allows_a_ratio_of_five() {
    assert!(is_fair(&m(10, 0, 0, 10, 50)));
    assert!(!is_fair(&m(10, 0, 0, 10, 51)));
    assert!(is_fair(&m(10, 0, 0, 0, 0)));
    assert!(!is_fair(&m(10, 0, 0, 0, 1)));
    assert!(is_fair(&m(10, 0, 0, u64::MAX, u64::MAX)));
}

#[test]
fn series_is_judged_on_scaling_first() {
    let good = vec![m(10, 1000, 100, 10, 20), m(20, 3000, 300, 10, 30), m(50, 9000, 900, 10, 50)];
    assert_eq!(check_scaling(&good), Ok(true));
    let unfair = vec![m(10, 1000, 100, 10, 20), m(20, 3000, 300, 10, 51)];
    assert_eq!(check_scaling(&unfair), Err(ScalingError::BadLoadRatio));
    let steep = vec![m(10, 1000, 100, 10, 20), m(20, 5000, 300, 10, 20)];
    assert_eq!(check_scaling(&steep), Err(ScalingError::BadScaling));
    let both = vec![m(10, 1000, 100, 1, 20), m(20, 5000, 300, 10, 20)];
    assert_eq!(check_scaling(&both), Err(ScalingError::BadScaling));
    assert_eq!(check_scaling(&Vec::new()), Ok(true));
    assert_eq!(check_scaling(&vec![m(10, 0, 0, 1, 6)]), Err(ScalingError::BadLoadRatio));
}

#[test]
fn extreme_counts_do_not_overflow() {
    let prev = Measurement { node_count: u32::MAX, duration: u32::MAX, traffic: u64::MAX, messages: u64::MAX, min_load: 0, max_load: 0 };
    assert!(is_scaling(&prev, &prev));
    let zero = Measurement { traffic: 0, messages: 0, ..prev };
    assert!(is_scaling(&prev, &zero));
    assert!(!is_scaling(&zero, &prev));
}

fn reading(time: u64, traffic: u64, messages: u64, nodes: &[(u64, u64)]) -> Reading {
    Reading {
        time,
        traffic,
        messages,
        nodes: nodes.iter().map(|&(sent, received)| NodeCounters { sent, received }).collect(),
    }
}

#[test]
fn measurement_is_the_difference_of_two_readings() {
    let before = reading(5_000, 100, 10, &[(1, 2), (3, 4), (5, 6)]);
    let after = reading(15_000, 1100, 110, &[(11, 12), (3, 5), (25, 6)]);
    assert_eq!(
        measure(3, &before, &after, None),
        Some(Measurement { node_count: 3, duration: 10_000, traffic: 1000, messages: 100, min_load: 1, max_load: 20 })
    );
    assert_eq!(
        measure(3, &before, &after, Some(1)),
        Some(Measurement { node_count: 3, duration: 10_000, traffic: 1000, messages: 100, min_load: 20, max_load: 20 })
    );
}

#[test]
fn readings_that_cannot_be_measured() {
    let before = reading(5_000, 100, 10, &[(1, 2)]);
    assert_eq!(measure(1, &before, &reading(4_000, 100, 10, &[(1, 2)]), None), None);
    assert_eq!(measure(1, &before, &reading(6_000, 99, 10, &[(1, 2)]), None), None);
    assert_eq!(measure(1, &before, &reading(6_000, 100, 9, &[(1, 2)]), None), None);
    assert_eq!(measure(1, &before, &reading(6_000, 100, 10, &[(1, 1)]), None), None);
    assert_eq!(measure(1, &before, &reading(6_000, 100, 10, &[(1, 2), (0, 0)]), None), None);
    assert_eq!(measure(1, &before, &reading(6_000, 100, 10, &[(1, 2)]), Some(0)), None);
    assert_eq!(measure(1, &before, &reading(5_000 + (1 << 32), 100, 10, &[(1, 2)]), None), None);
    assert_eq!(measure(1, &before, &reading(6_000, 100, 10, &[(u64::MAX, 1)]), None), None);
    assert_eq!(measure(0, &reading(0, 0, 0, &[]), &reading(0, 0, 0, &[]), None), None);
}

#[test]
fn failed_assertions_are_named() {
    assert_eq!(describe_scaling_error(ScalingError::BadScaling), "Bad network load scaling");
    assert_eq!(describe_scaling_error(ScalingError::BadLoadRatio), "Bad max/min node load");
}
