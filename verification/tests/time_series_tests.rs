use datapeak::entries::Entry;
use datapeak::manager::TestInfoManager;
use datapeak::time_series::{
    fixed_intervals, get_time_series, interval_time_series, inspect_path_for_labels,
    moving_mean_points, DownsizingMethod,
};
use datapeak::types::{DataPoint, EngineError, Interval, Sink, SinkKind};
use datapeak::LABEL_UNIT;

fn counter_interval(period: u32, name: &str, count: i64) -> Interval {
    Interval {
        period,
        sinks: vec![Entry {
            name: name.to_string(),
            value: Sink {
                kind: SinkKind::Counter,
                labels: vec![Entry {
                    name: "count".to_string(),
                    value: count,
                }],
            },
        }],
    }
}

fn ramp(n: u32) -> Vec<(u32, i64)> {
    (0..n).map(|i| (i, i as i64)).collect()
}

#[test]
fn fixed_decimation_keeps_budget_and_last_point() {
    let data = ramp(2500);
    let out = fixed_intervals(&data, Some(1000));
    assert_eq!(out.len(), 1000);
    assert_eq!(out[0], (0, 0));
    assert_eq!(out[999], (2499, 2499));
    let again = fixed_intervals(&data, Some(1000));
    assert_eq!(out, again);
}

#[test]
fn fixed_decimation_returns_short_series_unchanged() {
    let data = ramp(10);
    let out = fixed_intervals(&data, Some(1000));
    assert_eq!(out, data);
}

#[test]
fn fixed_decimation_default_budget_is_one_thousand() {
    let data = ramp(1500);
    let out = fixed_intervals(&data, None);
    assert_eq!(out.len(), 1000);
    assert_eq!(out[999], (1499, 1499));
}

#[test]
fn fixed_decimation_zero_budget_is_empty() {
    let data = ramp(5);
    let out = fixed_intervals(&data, Some(0));
    assert!(out.is_empty());
}

#[test]
fn fixed_decimation_budget_of_one_takes_first_point() {
    let data = ramp(5);
    let out = fixed_intervals(&data, Some(1));
    assert_eq!(out, vec![(0, 0)]);
}

#[test]
fn moving_mean_derives_window_from_budget() {
    let data: Vec<(u32, i64)> = (0..10000).map(|i| (i, 5 * LABEL_UNIT)).collect();
    let out = moving_mean_points(&data, None, None);
    assert_eq!(out.len(), 1000);
    for (k, p) in out.iter().enumerate() {
        assert_eq!(p.0, k as u32 + 5);
        assert_eq!(p.1, 5 * LABEL_UNIT);
    }
}

#[test]
fn moving_mean_small_window_exact_means() {
    let data = vec![
        (0, 1 * LABEL_UNIT),
        (1, 2 * LABEL_UNIT),
        (2, 3 * LABEL_UNIT),
        (3, 4 * LABEL_UNIT),
    ];
    let out = moving_mean_points(&data, Some(2), Some(1000));
    assert_eq!(out.len(), 3);
    assert_eq!(out[0], (1, 1_500_000));
    assert_eq!(out[1], (2, 2_500_000));
    assert_eq!(out[2], (3, 3_500_000));
}

#[test]
fn moving_mean_window_larger_than_series_is_empty() {
    let data = ramp(3);
    let out = moving_mean_points(&data, Some(4), Some(1000));
    assert!(out.is_empty());
}

#[test]
fn moving_mean_zero_budget_is_empty() {
    let data = ramp(10);
    let out = moving_mean_points(&data, Some(2), Some(0));
    assert!(out.is_empty());
}

#[test]
fn moving_mean_stops_at_budget() {
    let data = ramp(10);
    let out = moving_mean_points(&data, Some(2), Some(3));
    assert_eq!(out.len(), 3);
}

#[test]
fn fixed_decimation_selects_exact_stride_indices() {
    let data = ramp(5);
    let out = fixed_intervals(&data, Some(3));
    assert_eq!(out, vec![(0, 0), (2, 2), (4, 4)]);
}

#[test]
fn moving_mean_rounds_half_away_from_zero() {
    let data = vec![(0, 1), (1, 2)];
    let out = moving_mean_points(&data, Some(2), Some(10));
    assert_eq!(out, vec![(1, 2)]);
    let data = vec![(0, -1), (1, -2)];
    let out = moving_mean_points(&data, Some(2), Some(10));
    assert_eq!(out, vec![(1, -2)]);
}

#[test]
fn series_extraction_reads_periods_and_values() {
    let mut m = TestInfoManager::new(None);
    let errors = m.process_streamed_data(vec![
        DataPoint::Interval(counter_interval(0, "web::reqs", 60 * LABEL_UNIT)),
        DataPoint::Interval(counter_interval(1, "web::reqs", 120 * LABEL_UNIT)),
    ]);
    assert!(errors.is_empty());
    let series = get_time_series(
        &m.intervals,
        "web::reqs",
        "count",
        DownsizingMethod::NoDownsizing,
    )
    .expect("series");
    assert_eq!(series, vec![(0, 60 * LABEL_UNIT), (1, 120 * LABEL_UNIT)]);
}

#[test]
fn series_substitutes_zero_for_absent_sink() {
    let mut m = TestInfoManager::new(None);
    m.process_streamed_data(vec![
        DataPoint::Interval(counter_interval(0, "web::reqs", 60 * LABEL_UNIT)),
        DataPoint::Interval(counter_interval(1, "api::reqs", 30 * LABEL_UNIT)),
    ]);
    let series = get_time_series(
        &m.intervals,
        "web::reqs",
        "count",
        DownsizingMethod::NoDownsizing,
    )
    .expect("series");
    assert_eq!(series, vec![(0, 60 * LABEL_UNIT), (0, 0)]);
}

#[test]
fn unknown_sink_is_rejected() {
    let mut m = TestInfoManager::new(None);
    m.process_streamed_data(vec![DataPoint::Interval(counter_interval(
        0,
        "web::reqs",
        60 * LABEL_UNIT,
    ))]);
    let r = get_time_series(
        &m.intervals,
        "nope::reqs",
        "count",
        DownsizingMethod::NoDownsizing,
    );
    match r {
        Err(EngineError::SinkNotFound { sink }) => assert_eq!(sink, "nope::reqs"),
        other => panic!("unexpected: {:?}", other),
    }
}

#[test]
fn unknown_label_is_rejected() {
    let mut m = TestInfoManager::new(None);
    m.process_streamed_data(vec![DataPoint::Interval(counter_interval(
        0,
        "web::reqs",
        60 * LABEL_UNIT,
    ))]);
    let r = get_time_series(
        &m.intervals,
        "web::reqs",
        "nope",
        DownsizingMethod::NoDownsizing,
    );
    match r {
        Err(EngineError::LabelNotFound { label }) => assert_eq!(label, "nope"),
        other => panic!("unexpected: {:?}", other),
    }
}

#[test]
fn probe_reads_only_first_ten_intervals() {
    let mut m = TestInfoManager::new(None);
    for p in 0..10 {
        m.process_streamed_data(vec![DataPoint::Interval(counter_interval(
            p,
            "web::reqs",
            60 * LABEL_UNIT,
        ))]);
    }
    m.process_streamed_data(vec![DataPoint::Interval(counter_interval(
        10,
        "late::reqs",
        60 * LABEL_UNIT,
    ))]);
    assert!(inspect_path_for_labels(&m.intervals, "web::reqs", "count").is_ok());
    assert!(inspect_path_for_labels(&m.intervals, "late::reqs", "count").is_err());
}

#[test]
fn combined_path_splits_sink_and_label() {
    let mut m = TestInfoManager::new(None);
    m.process_streamed_data(vec![DataPoint::Interval(counter_interval(
        0,
        "web::reqs",
        60 * LABEL_UNIT,
    ))]);
    let series = interval_time_series(
        &m.intervals,
        "web::reqs::count",
        DownsizingMethod::NoDownsizing,
    )
    .expect("series");
    assert_eq!(series, vec![(0, 60 * LABEL_UNIT)]);
}

#[test]
fn combined_path_needs_two_segments() {
    let m = TestInfoManager::new(None);
    let r = interval_time_series(&m.intervals, "count", DownsizingMethod::NoDownsizing);
    assert!(matches!(r, Err(EngineError::PathTooShort)));
}

#[test]
fn combined_path_with_downsampling_applies_it() {
    let mut m = TestInfoManager::new(None);
    let mut batch = Vec::new();
    for p in 0..30u32 {
        batch.push(DataPoint::Interval(counter_interval(
            p,
            "web::reqs",
            (p as i64) * LABEL_UNIT,
        )));
    }
    assert!(m.process_streamed_data(batch).is_empty());
    let series = interval_time_series(
        &m.intervals,
        "web::reqs::count",
        DownsizingMethod::FixedIntervals {
            max_data_points: Some(10),
        },
    )
    .expect("series");
    assert_eq!(series.len(), 10);
    assert_eq!(series[9], (29, 29 * LABEL_UNIT));
}
