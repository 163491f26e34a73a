use mutfuzz::telemetry::{sample_due, StatusLine, Telemetry, SAMPLE_PERIOD_MILLIS};

#[test]
fn fresh_state_counts_nothing() {
    let telemetry = Telemetry::new();
    assert_eq!(telemetry.total_tests(), 0);
    assert_eq!(telemetry.crash_count(), 0);
    assert_eq!(telemetry.unique_crashes(), &Vec::<i32>::new());
}

#[test]
fn sample_folds_increments_and_crashes() {
    let mut telemetry = Telemetry::new();
    let line = telemetry.sample(&vec![1usize, 1usize, 1usize], &vec![3i32, 5i32, 3i32]);
    assert_eq!(
        line,
        StatusLine { samples: 1, window_total: 3, crashes: 3, unique_crashes: 2, total_tests: 3 }
    );
    assert_eq!(telemetry.total_tests(), 3);
    assert_eq!(telemetry.crash_count(), 3);
    assert_eq!(telemetry.unique_crashes(), &vec![3i32, 5i32]);
}

#[test]
fn empty_sample_adds_a_period_of_zero() {
    let mut telemetry = Telemetry::new();
    telemetry.sample(&vec![4usize], &vec![9i32]);
    let line = telemetry.sample(&Vec::new(), &Vec::new());
    assert_eq!(
        line,
        StatusLine { samples: 2, window_total: 4, crashes: 1, unique_crashes: 1, total_tests: 4 }
    );
}

#[test]
fn samples_accumulate() {
    let mut telemetry = Telemetry::new();
    telemetry.sample(&vec![1usize, 1usize, 1usize], &vec![3i32, 5i32, 3i32]);
    telemetry.sample(&Vec::new(), &Vec::new());
    let line = telemetry.sample(&vec![2usize], &vec![5i32, -1i32]);
    assert_eq!(
        line,
        StatusLine { samples: 3, window_total: 5, crashes: 5, unique_crashes: 3, total_tests: 5 }
    );
    assert_eq!(telemetry.unique_crashes(), &vec![-1i32, 3i32, 5i32]);
}

#[test]
fn unique_codes_are_sorted_and_distinct() {
    let mut telemetry = Telemetry::new();
    let codes: Vec<i32> = vec![7, -3, 7, 0 - 3, i32::MAX, 1, i32::MIN, 1, 7, 2];
    let line = telemetry.sample(&Vec::new(), &codes);
    assert_eq!(line.crashes, 10);
    assert_eq!(line.unique_crashes, 6);
    assert_eq!(telemetry.unique_crashes(), &vec![i32::MIN, -3, 1, 2, 7, i32::MAX]);
    let mut expected: Vec<i32> = codes.clone();
    expected.sort();
    expected.dedup();
    assert_eq!(telemetry.unique_crashes(), &expected);
}

#[test]
fn window_total_is_the_total() {
    let mut telemetry = Telemetry::new();
    let mut sum: usize = 0;
    for period in 0..20usize {
        let increments: Vec<usize> = vec![1usize; period];
        sum += period;
        let line = telemetry.sample(&increments, &Vec::new());
        assert_eq!(line.samples, period + 1);
        assert_eq!(line.window_total, sum);
        assert_eq!(line.total_tests, sum);
    }
}

#[test]
fn can_absorb_guards_the_counter() {
    let mut telemetry = Telemetry::new();
    assert!(telemetry.can_absorb(&vec![usize::MAX]));
    assert!(!telemetry.can_absorb(&vec![usize::MAX, 1usize]));
    telemetry.sample(&vec![usize::MAX - 1], &Vec::new());
    assert!(telemetry.can_absorb(&Vec::new()));
    assert!(telemetry.can_absorb(&vec![1usize]));
    assert!(!telemetry.can_absorb(&vec![1usize, 1usize]));
    assert!(!telemetry.can_absorb(&vec![2usize]));
    let line = telemetry.sample(&vec![1usize], &Vec::new());
    assert_eq!(line.total_tests, usize::MAX);
}

#[test]
fn sampling_waits_for_a_full_second() {
    assert_eq!(SAMPLE_PERIOD_MILLIS, 1000);
    assert!(!sample_due(0));
    assert!(!sample_due(999));
    assert!(sample_due(1000));
    assert!(sample_due(60000));
}
