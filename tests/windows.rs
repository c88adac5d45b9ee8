use rust_ephem::batch::{broadcast_satisfied, satisfaction_matrix, select_indices};
use rust_ephem::result::{ConstraintError, ConstraintResult, ConstraintViolation};
use rust_ephem::time::{generate_timestamps, TimeRangeError, Timestamp};
use rust_ephem::tracker::{track_violations, WindowSpan};

fn flags(pattern: &str) -> Vec<bool> {
    pattern.chars().map(|c| c == 'T').collect()
}

fn seconds(start: i64, n: usize, step: i64) -> Vec<Timestamp> {
    (0..n)
        .map(|i| Timestamp::new(start + step * i as i64, 0).unwrap())
        .collect()
}

fn span(start: usize, end: usize, at_end: bool) -> WindowSpan {
    WindowSpan { start, end, at_end }
}

/// Largest severity over the span, and a description that tells the two
/// kinds of closure apart.
fn describe(severities: &[f64]) -> impl Fn(WindowSpan) -> (f64, String) + '_ {
    move |s: WindowSpan| {
        let max = severities[s.start..=s.end]
            .iter()
            .cloned()
            .fold(f64::NEG_INFINITY, f64::max);
        let text = if s.at_end { "final" } else { "closed" };
        (max, text.to_string())
    }
}

#[test]
fn tracker_three_windows() {
    let spans = track_violations(&flags("FFTTTFTFFT"));
    assert_eq!(spans, vec![span(2, 4, false), span(6, 6, false), span(9, 9, true)]);
}

#[test]
fn tracker_empty_sequence() {
    assert!(track_violations(&Vec::new()).is_empty());
}

#[test]
fn tracker_single_violated_sample() {
    assert_eq!(track_violations(&flags("T")), vec![span(0, 0, true)]);
}

#[test]
fn tracker_violated_from_first_sample() {
    assert_eq!(
        track_violations(&flags("TTF")),
        vec![span(0, 1, false)]
    );
}

#[test]
fn tracker_all_satisfied() {
    assert!(track_violations(&flags("FFFF")).is_empty());
}

#[test]
fn tracker_all_violated() {
    assert_eq!(track_violations(&flags("TTTT")), vec![span(0, 3, true)]);
}

#[test]
fn result_severities_are_window_maxima() {
    let times = seconds(0, 10, 1);
    let sev = [0.0, 0.0, 0.1, 0.7, 0.3, 0.0, 0.2, 0.0, 0.0, 0.9];
    let r = ConstraintResult::from_flags(
        "test".to_string(),
        times.clone(),
        &flags("FFTTTFTFFT"),
        describe(&sev),
    )
    .unwrap();
    assert_eq!(r.violations.len(), 3);
    assert!(!r.all_satisfied);
    let got: Vec<(Timestamp, Timestamp, f64, String)> = r
        .violations
        .iter()
        .map(|v| (v.start_time, v.end_time, v.max_severity, v.description.clone()))
        .collect();
    assert_eq!(
        got,
        vec![
            (times[2], times[4], 0.7, "closed".to_string()),
            (times[6], times[6], 0.2, "closed".to_string()),
            (times[9], times[9], 0.9, "final".to_string()),
        ]
    );
}

#[test]
fn sun_proximity_scenario_windows() {
    // Separations 10,10,25,25,25,10,10,10,25,25 degrees against a 20 degree minimum.
    let separations = [10.0, 10.0, 25.0, 25.0, 25.0, 10.0, 10.0, 10.0, 25.0, 25.0];
    let min_angle = 20.0;
    let violated: Vec<bool> = separations.iter().map(|a| *a < min_angle).collect();
    let sev: Vec<f64> = separations
        .iter()
        .map(|a| if *a < min_angle { (min_angle - a) / min_angle } else { 0.0 })
        .collect();
    let times = seconds(1_700_000_000, 10, 60);
    let r = ConstraintResult::from_flags("SunProximity(min=20°)".to_string(), times, &violated, describe(&sev)).unwrap();
    assert!(!r.all_satisfied);
    let idx: Vec<(usize, usize)> = r.violations.iter().map(|v| (v.start_index, v.end_index)).collect();
    assert_eq!(idx, vec![(0, 1), (5, 7)]);
    for v in &r.violations {
        assert!((v.max_severity - 0.5).abs() < 1e-12);
    }
    assert_eq!(r.total_violation_duration(), 60 + 120);
}

#[test]
fn windows_are_ordered_and_on_instants() {
    let times = seconds(100, 12, 5);
    let r = ConstraintResult::from_flags(
        "x".to_string(),
        times.clone(),
        &flags("TFTTFFTFTTTF"),
        |_s: WindowSpan| ((), String::new()),
    )
    .unwrap();
    for w in r.violations.windows(2) {
        assert!(w[0].end_time.is_before(&w[1].start_time));
    }
    for v in &r.violations {
        assert!(times.contains(&v.start_time) && times.contains(&v.end_time));
    }
}

#[test]
fn empty_evaluation_is_all_satisfied() {
    let r = ConstraintResult::from_flags("x".to_string(), Vec::new(), &Vec::new(), |_s: WindowSpan| (0.0, String::new())).unwrap();
    assert!(r.all_satisfied);
    assert!(r.violations.is_empty());
    assert_eq!(r.total_violation_duration(), 0);
    assert!(r.constraint_array().is_empty());
}

#[test]
fn from_flags_rejects_length_mismatch() {
    let r = ConstraintResult::from_flags("x".to_string(), seconds(0, 3, 1), &flags("TT"), |_s: WindowSpan| (0.0, String::new()));
    assert_eq!(r.err(), Some(ConstraintError::LengthMismatch));
}

#[test]
fn from_flags_rejects_unordered_times() {
    let mut times = seconds(0, 3, 1);
    times.swap(0, 1);
    let r = ConstraintResult::from_flags("x".to_string(), times, &flags("FFF"), |_s: WindowSpan| (0.0, String::new()));
    assert_eq!(r.err(), Some(ConstraintError::InvalidTimes));
}

#[test]
fn from_flags_rejects_repeated_time() {
    let times = vec![Timestamp::new(5, 0).unwrap(), Timestamp::new(5, 0).unwrap()];
    let r = ConstraintResult::from_flags("x".to_string(), times, &flags("FF"), |_s: WindowSpan| (0.0, String::new()));
    assert_eq!(r.err(), Some(ConstraintError::InvalidTimes));
}

#[test]
fn constraint_array_negates_flags() {
    let f = flags("FFTTTFTFFT");
    let r = ConstraintResult::from_flags("x".to_string(), seconds(0, 10, 1), &f, |_s: WindowSpan| (0u8, String::new())).unwrap();
    let mask = r.constraint_array();
    let expected: Vec<bool> = f.iter().map(|b| !b).collect();
    assert_eq!(mask, expected);
    // Asking again gives the same answer.
    assert_eq!(r.constraint_array(), mask);
    assert_eq!(r.total_violation_duration(), r.total_violation_duration());
}

#[test]
fn total_duration_ignores_single_sample_windows() {
    let r = ConstraintResult::from_flags("x".to_string(), seconds(0, 10, 1), &flags("FFTTTFTFFT"), |_s: WindowSpan| (0u8, String::new())).unwrap();
    assert_eq!(r.total_violation_duration(), 2);
}

#[test]
fn total_duration_rounds_each_window_down() {
    let times = vec![
        Timestamp::new(0, 0).unwrap(),
        Timestamp::new(1, 500_000_000).unwrap(),
        Timestamp::new(3, 0).unwrap(),
        Timestamp::new(4, 900_000_000).unwrap(),
    ];
    let r = ConstraintResult::from_flags("x".to_string(), times, &flags("TTFT"), |_s: WindowSpan| (0u8, String::new())).unwrap();
    assert_eq!(r.total_violation_duration(), 1);
}

#[test]
fn in_constraint_looks_up_exact_instants() {
    let times = seconds(0, 4, 10);
    let r = ConstraintResult::from_flags("x".to_string(), times.clone(), &flags("FTTF"), |_s: WindowSpan| (0u8, String::new())).unwrap();
    assert_eq!(r.in_constraint(&times[0]), Ok(true));
    assert_eq!(r.in_constraint(&times[1]), Ok(false));
    assert_eq!(r.in_constraint(&times[2]), Ok(false));
    assert_eq!(r.in_constraint(&times[3]), Ok(true));
    let between = Timestamp::new(15, 0).unwrap();
    assert_eq!(r.in_constraint(&between), Err(ConstraintError::TimeNotFound));
}

#[test]
fn new_checks_windows() {
    let times = seconds(0, 4, 1);
    let good = ConstraintViolation::from_span(&span(1, 2, false), &times, 1.0, "w".to_string());
    let r = ConstraintResult::new(vec![good.clone()], "x".to_string(), times.clone()).unwrap();
    assert!(!r.all_satisfied);
    assert_eq!(r.constraint_array(), vec![true, false, false, true]);

    let mut misplaced = good.clone();
    misplaced.end_time = times[3];
    assert_eq!(
        ConstraintResult::new(vec![misplaced], "x".to_string(), times.clone()).err(),
        Some(ConstraintError::MisplacedWindow)
    );

    let touching = ConstraintViolation::from_span(&span(3, 3, true), &times, 1.0, "w".to_string());
    let first = ConstraintViolation::from_span(&span(1, 3, true), &times, 1.0, "w".to_string());
    assert_eq!(
        ConstraintResult::new(vec![first, touching], "x".to_string(), times.clone()).err(),
        Some(ConstraintError::OverlappingWindows)
    );

    let invalid = vec![Timestamp { seconds: 0, nanos: 1_000_000_000 }];
    assert_eq!(
        ConstraintResult::<f64>::new(Vec::new(), "x".to_string(), invalid).err(),
        Some(ConstraintError::InvalidTimes)
    );
}

#[test]
fn timestamp_validity_and_order() {
    assert!(Timestamp::new(0, 999_999_999).is_some());
    assert!(Timestamp::new(0, 1_000_000_000).is_none());
    assert!(Timestamp::new(8_000_000_000_001, 0).is_none());
    let a = Timestamp::new(10, 5).unwrap();
    let b = Timestamp::new(10, 6).unwrap();
    let c = Timestamp::new(11, 0).unwrap();
    assert!(a.is_before(&b) && b.is_before(&c) && !c.is_before(&a) && !a.is_before(&a));
    assert_eq!(a.whole_seconds_until(&c), 0);
    assert_eq!(Timestamp::new(-3, 500).unwrap().whole_seconds_until(&c), 13);
}

#[test]
fn generate_timestamps_inclusive_range() {
    let begin = Timestamp::new(1_000, 250).unwrap();
    let end = Timestamp::new(1_120, 250).unwrap();
    let v = generate_timestamps(begin, end, 60).unwrap();
    assert_eq!(v, vec![
        Timestamp::new(1_000, 250).unwrap(),
        Timestamp::new(1_060, 250).unwrap(),
        Timestamp::new(1_120, 250).unwrap(),
    ]);
}

#[test]
fn generate_timestamps_stops_before_end() {
    let begin = Timestamp::new(0, 0).unwrap();
    let end = Timestamp::new(100, 0).unwrap();
    let v = generate_timestamps(begin, end, 30).unwrap();
    assert_eq!(v.len(), 4);
    assert_eq!(v[3], Timestamp::new(90, 0).unwrap());
    let same = generate_timestamps(begin, begin, 30).unwrap();
    assert_eq!(same, vec![begin]);
}

#[test]
fn generate_timestamps_errors() {
    let a = Timestamp::new(0, 0).unwrap();
    let b = Timestamp::new(10, 0).unwrap();
    assert_eq!(generate_timestamps(b, a, 1), Err(TimeRangeError::BeginAfterEnd));
    assert_eq!(generate_timestamps(a, b, 0), Err(TimeRangeError::NonPositiveStep));
    assert_eq!(generate_timestamps(a, b, -5), Err(TimeRangeError::NonPositiveStep));
    let far = Timestamp::new(100_000_000, 0).unwrap();
    assert_eq!(generate_timestamps(a, far, 1), Err(TimeRangeError::TooManyTimestamps));
    let bad = Timestamp { seconds: 0, nanos: 2_000_000_000 };
    assert_eq!(generate_timestamps(bad, b, 1), Err(TimeRangeError::InvalidInstant));
}

#[test]
fn select_indices_filters_in_order() {
    let values = vec![10, 11, 12, 13];
    assert_eq!(select_indices(&values, &vec![3, 0, 2]), Some(vec![13, 10, 12]));
    assert_eq!(select_indices(&values, &vec![]), Some(vec![]));
    assert_eq!(select_indices(&values, &vec![1, 4]), None);
}

#[test]
fn broadcast_inverts_and_repeats() {
    let m = broadcast_satisfied(&flags("TFF"), 2);
    assert_eq!(m, vec![vec![false, true, true], vec![false, true, true]]);
    assert!(broadcast_satisfied(&flags("TF"), 0).is_empty());
}

#[test]
fn result_text_form() {
    let r = ConstraintResult::from_flags("Eclipse(umbra)".to_string(), seconds(0, 12, 1), &flags("TFTFTFTFTFTF"), |_s: WindowSpan| (0u8, String::new())).unwrap();
    assert_eq!(r.repr(), "ConstraintResult(constraint='Eclipse(umbra)', violations=6, all_satisfied=false)");
    let r = ConstraintResult::from_flags("n".to_string(), seconds(0, 2, 1), &flags("FF"), |_s: WindowSpan| (0u8, String::new())).unwrap();
    assert_eq!(r.repr(), "ConstraintResult(constraint='n', violations=0, all_satisfied=true)");
}

#[test]
fn satisfaction_matrix_inverts_each_row() {
    let m = satisfaction_matrix(&vec![flags("TF"), flags("FFT"), vec![]]);
    assert_eq!(m, vec![vec![false, true], vec![true, true, false], vec![]]);
}
