use datapeak::entries::Entry;
use datapeak::manager::TestInfoManager;
use datapeak::types::{
    ConsoleMessage, DataPoint, EngineError, Interval, Sink, SinkKind, TestInfo, Threshold,
    Timestamp,
};
use datapeak::LABEL_UNIT;

fn sink(kind: SinkKind, labels: &[(&str, i64)]) -> Sink {
    Sink {
        kind,
        labels: labels
            .iter()
            .map(|(n, v)| Entry {
                name: n.to_string(),
                value: *v,
            })
            .collect(),
    }
}

fn interval(period: u32, sinks: Vec<(&str, Sink)>) -> Interval {
    Interval {
        period,
        sinks: sinks
            .into_iter()
            .map(|(n, s)| Entry {
                name: n.to_string(),
                value: s,
            })
            .collect(),
    }
}

fn label_of(s: &Sink, name: &str) -> Option<i64> {
    s.labels
        .iter()
        .find(|e| e.name == name)
        .map(|e| e.value)
}

fn stored_sink<'a>(m: &'a TestInfoManager, period: u32, name: &str) -> &'a Sink {
    let iv = m
        .intervals
        .iter()
        .find(|iv| iv.period == period)
        .expect("interval stored");
    &iv.sinks
        .iter()
        .find(|e| e.name == name)
        .expect("sink stored")
        .value
}

fn threshold(source: &str, metric: &str) -> Threshold {
    Threshold {
        source: source.to_string(),
        metric: metric.to_string(),
        abort_on_fail: Some(true),
        delay_abort_eval: None,
    }
}

fn console(message: &str, level: &str, at: i64, counts: &[(&str, u64)]) -> ConsoleMessage {
    ConsoleMessage {
        message: message.to_string(),
        level: level.to_string(),
        first_occurred: Timestamp {
            seconds: at,
            nanos: 0,
        },
        last_occurred: Timestamp {
            seconds: at,
            nanos: 0,
        },
        count: counts
            .iter()
            .map(|(n, v)| Entry {
                name: n.to_string(),
                value: *v,
            })
            .collect(),
    }
}

#[test]
fn counter_period_zero_mean_and_rate() {
    let mut m = TestInfoManager::new(None);
    let batch = vec![DataPoint::Interval(interval(
        0,
        vec![("web::reqs", sink(SinkKind::Counter, &[("count", 60 * LABEL_UNIT)]))],
    ))];
    let errors = m.process_streamed_data(batch);
    assert!(errors.is_empty());
    let s = stored_sink(&m, 0, "web::reqs");
    assert_eq!(label_of(s, "mean"), Some(10 * LABEL_UNIT));
    assert_eq!(label_of(s, "rate"), Some(10 * LABEL_UNIT));
}

#[test]
fn counter_second_period_rate_from_previous_count() {
    let mut m = TestInfoManager::new(None);
    let errors = m.process_streamed_data(vec![
        DataPoint::Interval(interval(
            0,
            vec![("web::reqs", sink(SinkKind::Counter, &[("count", 60 * LABEL_UNIT)]))],
        )),
        DataPoint::Interval(interval(
            1,
            vec![("web::reqs", sink(SinkKind::Counter, &[("count", 120 * LABEL_UNIT)]))],
        )),
    ]);
    assert!(errors.is_empty());
    let s = stored_sink(&m, 1, "web::reqs");
    assert_eq!(label_of(s, "rate"), Some(10 * LABEL_UNIT));
    assert_eq!(label_of(s, "mean"), Some(10 * LABEL_UNIT));
}

#[test]
fn counter_missing_previous_period_uses_zero_count() {
    let mut m = TestInfoManager::new(None);
    let errors = m.process_streamed_data(vec![DataPoint::Interval(interval(
        5,
        vec![("web::reqs", sink(SinkKind::Counter, &[("count", 60 * LABEL_UNIT)]))],
    ))]);
    assert!(errors.is_empty());
    let s = stored_sink(&m, 5, "web::reqs");
    assert_eq!(label_of(s, "rate"), Some(10 * LABEL_UNIT));
    assert_eq!(label_of(s, "mean"), Some(1_666_667));
}

#[test]
fn rate_sink_derives_fail() {
    let mut m = TestInfoManager::new(None);
    let errors = m.process_streamed_data(vec![DataPoint::Interval(interval(
        0,
        vec![(
            "web::ratio",
            sink(
                SinkKind::Rate,
                &[("pass", 80 * LABEL_UNIT), ("total", 100 * LABEL_UNIT)],
            ),
        )],
    ))]);
    assert!(errors.is_empty());
    let s = stored_sink(&m, 0, "web::ratio");
    assert_eq!(label_of(s, "fail"), Some(20 * LABEL_UNIT));
}

#[test]
fn other_sink_passes_through_unmodified() {
    let mut m = TestInfoManager::new(None);
    let errors = m.process_streamed_data(vec![DataPoint::Interval(interval(
        0,
        vec![("web::gauge", sink(SinkKind::Other, &[("value", 7 * LABEL_UNIT)]))],
    ))]);
    assert!(errors.is_empty());
    let s = stored_sink(&m, 0, "web::gauge");
    assert_eq!(s.labels.len(), 1);
    assert_eq!(label_of(s, "value"), Some(7 * LABEL_UNIT));
}

#[test]
fn duplicate_period_in_batch_keeps_first_point() {
    let mut m = TestInfoManager::new(None);
    let errors = m.process_streamed_data(vec![
        DataPoint::Interval(interval(
            3,
            vec![("web::reqs", sink(SinkKind::Counter, &[("count", 60 * LABEL_UNIT)]))],
        )),
        DataPoint::Interval(interval(
            3,
            vec![("web::reqs", sink(SinkKind::Counter, &[("count", 999 * LABEL_UNIT)]))],
        )),
    ]);
    assert!(errors.is_empty());
    assert_eq!(m.intervals.len(), 1);
    assert_eq!(m.intervals[0].period, 3);
    let s = stored_sink(&m, 3, "web::reqs");
    assert_eq!(label_of(s, "count"), Some(60 * LABEL_UNIT));
}

#[test]
fn batch_intervals_apply_in_ascending_period_order() {
    let mut m = TestInfoManager::new(None);
    let errors = m.process_streamed_data(vec![
        DataPoint::Interval(interval(
            2,
            vec![("web::reqs", sink(SinkKind::Counter, &[("count", 240 * LABEL_UNIT)]))],
        )),
        DataPoint::Interval(interval(
            0,
            vec![("web::reqs", sink(SinkKind::Counter, &[("count", 60 * LABEL_UNIT)]))],
        )),
        DataPoint::Interval(interval(
            1,
            vec![("web::reqs", sink(SinkKind::Counter, &[("count", 120 * LABEL_UNIT)]))],
        )),
    ]);
    assert!(errors.is_empty());
    let periods: Vec<u32> = m.intervals.iter().map(|iv| iv.period).collect();
    assert_eq!(periods, vec![0, 1, 2]);
    let s = stored_sink(&m, 2, "web::reqs");
    assert_eq!(label_of(s, "rate"), Some(20 * LABEL_UNIT));
}

#[test]
fn stale_period_updates_sinks_but_not_global_facets() {
    let mut m = TestInfoManager::new(None);
    let errors = m.process_streamed_data(vec![
        DataPoint::Interval(interval(
            0,
            vec![("web::reqs", sink(SinkKind::Counter, &[("count", 60 * LABEL_UNIT)]))],
        )),
        DataPoint::Interval(interval(
            2,
            vec![("web::reqs", sink(SinkKind::Counter, &[("count", 240 * LABEL_UNIT)]))],
        )),
    ]);
    assert!(errors.is_empty());
    let summary_state = m.summary_state;
    let locations_state = m.locations_state;
    let checks_state = m.checks_state;
    let intervals_state = m.intervals_state;

    let errors = m.process_streamed_data(vec![DataPoint::Interval(interval(
        1,
        vec![("api::reqs", sink(SinkKind::Counter, &[("count", 30 * LABEL_UNIT)]))],
    ))]);
    assert!(errors.is_empty());

    assert_eq!(m.summary_state, summary_state);
    assert_eq!(m.locations_state, locations_state);
    assert_eq!(m.checks_state, checks_state);
    assert_ne!(m.intervals_state, intervals_state);
    let s = stored_sink(&m, 1, "api::reqs");
    assert_eq!(label_of(s, "count"), Some(30 * LABEL_UNIT));
    assert_eq!(m.summary.as_ref().unwrap().period, 2);
    assert!(m.locations.iter().all(|l| l != "api"));
}

#[test]
fn summary_is_latest_stored_interval() {
    let mut m = TestInfoManager::new(None);
    m.process_streamed_data(vec![
        DataPoint::Interval(interval(
            0,
            vec![("web::reqs", sink(SinkKind::Counter, &[("count", 60 * LABEL_UNIT)]))],
        )),
        DataPoint::Interval(interval(
            1,
            vec![("web::reqs", sink(SinkKind::Counter, &[("count", 120 * LABEL_UNIT)]))],
        )),
    ]);
    assert_eq!(m.summary.as_ref().unwrap().period, 1);
}

#[test]
fn locations_keep_first_seen_order() {
    let mut m = TestInfoManager::new(None);
    m.process_streamed_data(vec![DataPoint::Interval(interval(
        0,
        vec![
            ("web::reqs", sink(SinkKind::Counter, &[("count", LABEL_UNIT)])),
            ("api::reqs", sink(SinkKind::Counter, &[("count", LABEL_UNIT)])),
            ("web::errs", sink(SinkKind::Counter, &[("count", LABEL_UNIT)])),
        ],
    ))]);
    assert_eq!(m.locations, vec!["web".to_string(), "api".to_string()]);
}

#[test]
fn threshold_with_same_source_replaces_old_one() {
    let mut m = TestInfoManager::new(None);
    m.process_threshold(threshold("src-a", "m::one"));
    let state = m.thresholds_state;
    m.process_threshold(threshold("src-a", "m::two"));
    assert_eq!(m.thresholds.len(), 1);
    assert_eq!(m.thresholds[0].source, "src-a");
    assert_eq!(m.thresholds[0].metric, "m::two");
    assert_ne!(m.thresholds_state, state);
}

#[test]
fn thresholds_with_distinct_sources_coexist() {
    let mut m = TestInfoManager::new(None);
    m.process_threshold(threshold("src-a", "m::one"));
    m.process_threshold(threshold("src-b", "m::one"));
    assert_eq!(m.thresholds.len(), 2);
}

#[test]
fn console_messages_with_same_identity_merge() {
    let mut m = TestInfoManager::new(None);
    let mut first = console("oops", "warn", 100, &[("web", 2)]);
    first.last_occurred = Timestamp {
        seconds: 150,
        nanos: 0,
    };
    m.process_console_message(first);
    m.process_console_message(console("oops", "warn", 200, &[("api", 3), ("web", 1)]));
    assert_eq!(m.console_messages.len(), 1);
    let rec = &m.console_messages[0];
    assert_eq!(rec.first_occurred.seconds, 100);
    assert_eq!(rec.last_occurred.seconds, 200);
    let web = rec.count.iter().find(|e| e.name == "web").unwrap().value;
    let api = rec.count.iter().find(|e| e.name == "api").unwrap().value;
    assert_eq!(web, 3);
    assert_eq!(api, 3);
}

#[test]
fn console_messages_with_different_identity_stay_apart() {
    let mut m = TestInfoManager::new(None);
    m.process_console_message(console("oops", "warn", 100, &[("web", 1)]));
    m.process_console_message(console("oops", "error", 100, &[("web", 1)]));
    assert_eq!(m.console_messages.len(), 2);
}

#[test]
fn check_sink_fills_named_collection() {
    let mut m = TestInfoManager::new(None);
    m.process_threshold(threshold("th-1", "web::checks::check::status"));
    let errors = m.process_streamed_data(vec![DataPoint::Interval(interval(
        0,
        vec![(
            "web::checks::check::status",
            sink(
                SinkKind::Rate,
                &[
                    ("pass", 80 * LABEL_UNIT),
                    ("total", 100 * LABEL_UNIT),
                    ("rate", 800_000),
                ],
            ),
        )],
    ))]);
    assert!(errors.is_empty());
    assert_eq!(m.checks.named.len(), 1);
    assert_eq!(m.checks.groups.len(), 0);
    assert_eq!(m.checks.scenarios.len(), 0);
    let check = &m.checks.named[0];
    assert_eq!(check.name, "status");
    let rate = &check.rates.iter().find(|e| e.name == "web").unwrap().value;
    assert_eq!(rate.sink_path, "web::checks::check::status");
    assert_eq!(rate.pass, 80);
    assert_eq!(rate.fail, 20);
    assert_eq!(rate.total, 100);
    assert_eq!(rate.rate, 800_000);
    let linked = check.threshold.as_ref().expect("threshold linked");
    assert_eq!(linked.source, "th-1");
}

#[test]
fn check_without_matching_threshold_links_none() {
    let mut m = TestInfoManager::new(None);
    m.process_threshold(threshold("th-1", "some::other::metric::path"));
    let errors = m.process_streamed_data(vec![DataPoint::Interval(interval(
        0,
        vec![(
            "web::checks::check::status",
            sink(
                SinkKind::Rate,
                &[
                    ("pass", 80 * LABEL_UNIT),
                    ("total", 100 * LABEL_UNIT),
                    ("rate", 800_000),
                ],
            ),
        )],
    ))]);
    assert!(errors.is_empty());
    assert!(m.checks.named[0].threshold.is_none());
}

#[test]
fn check_kinds_route_to_their_collections() {
    let mut m = TestInfoManager::new(None);
    let rate_labels = [
        ("pass", LABEL_UNIT),
        ("total", LABEL_UNIT),
        ("rate", LABEL_UNIT),
    ];
    let errors = m.process_streamed_data(vec![DataPoint::Interval(interval(
        0,
        vec![
            ("web::checks::group::g1", sink(SinkKind::Rate, &rate_labels)),
            ("web::checks::scenario::s1", sink(SinkKind::Rate, &rate_labels)),
            ("web::checks::check::c1", sink(SinkKind::Rate, &rate_labels)),
            ("web::other::path::x", sink(SinkKind::Rate, &rate_labels)),
            ("web::checks::check::not_rate", sink(SinkKind::Counter, &[("count", 0)])),
        ],
    ))]);
    assert!(errors.is_empty());
    assert_eq!(m.checks.groups.len(), 1);
    assert_eq!(m.checks.scenarios.len(), 1);
    assert_eq!(m.checks.named.len(), 1);
    assert_eq!(m.checks.groups[0].name, "g1");
    assert_eq!(m.checks.scenarios[0].name, "s1");
    assert_eq!(m.checks.named[0].name, "c1");
}

#[test]
fn check_sink_without_rate_label_reports_error_but_interval_stays() {
    let mut m = TestInfoManager::new(None);
    let errors = m.process_streamed_data(vec![DataPoint::Interval(interval(
        0,
        vec![(
            "web::checks::check::status",
            sink(
                SinkKind::Rate,
                &[("pass", 80 * LABEL_UNIT), ("total", 100 * LABEL_UNIT)],
            ),
        )],
    ))]);
    assert_eq!(errors.len(), 1);
    match &errors[0] {
        EngineError::MissingLabel { sink, label } => {
            assert_eq!(sink, "web::checks::check::status");
            assert_eq!(label, "rate");
        }
        other => panic!("unexpected error: {:?}", other),
    }
    assert_eq!(m.intervals.len(), 1);
}

#[test]
fn counter_without_count_label_rejects_interval() {
    let mut m = TestInfoManager::new(None);
    let errors = m.process_streamed_data(vec![DataPoint::Interval(interval(
        0,
        vec![("web::reqs", sink(SinkKind::Counter, &[("other", 1)]))],
    ))]);
    assert_eq!(errors.len(), 1);
    match &errors[0] {
        EngineError::MissingLabel { sink, label } => {
            assert_eq!(sink, "web::reqs");
            assert_eq!(label, "count");
        }
        other => panic!("unexpected error: {:?}", other),
    }
    assert!(m.intervals.is_empty());
}

#[test]
fn rate_without_pass_label_rejects_interval() {
    let mut m = TestInfoManager::new(None);
    let errors = m.process_streamed_data(vec![DataPoint::Interval(interval(
        0,
        vec![("web::ratio", sink(SinkKind::Rate, &[("total", 100 * LABEL_UNIT)]))],
    ))]);
    assert_eq!(errors.len(), 1);
    match &errors[0] {
        EngineError::MissingLabel { label, .. } => assert_eq!(label, "pass"),
        other => panic!("unexpected error: {:?}", other),
    }
    assert!(m.intervals.is_empty());
}

#[test]
fn failed_interval_leaves_other_batch_points_applied() {
    let mut m = TestInfoManager::new(None);
    let errors = m.process_streamed_data(vec![
        DataPoint::Interval(interval(
            0,
            vec![("web::reqs", sink(SinkKind::Counter, &[("bad", 1)]))],
        )),
        DataPoint::Interval(interval(
            1,
            vec![("web::reqs", sink(SinkKind::Counter, &[("count", 60 * LABEL_UNIT)]))],
        )),
        DataPoint::Threshold(threshold("src-a", "m::one")),
    ]);
    assert_eq!(errors.len(), 1);
    assert_eq!(m.intervals.len(), 1);
    assert_eq!(m.intervals[0].period, 1);
    assert_eq!(m.thresholds.len(), 1);
}

#[test]
fn snapshot_seeds_collections_and_locations() {
    let ti = TestInfo {
        intervals: vec![
            interval(0, vec![("web::reqs", sink(SinkKind::Other, &[("v", 1)]))]),
            interval(1, vec![("api::reqs", sink(SinkKind::Other, &[("v", 2)]))]),
        ],
        thresholds: vec![threshold("src-a", "m::one")],
        console_messages: vec![],
        messages: vec!["hello".to_string()],
    };
    let m = TestInfoManager::new(Some(ti));
    assert_eq!(m.intervals.len(), 2);
    assert_eq!(m.locations, vec!["web".to_string(), "api".to_string()]);
    assert_eq!(m.thresholds.len(), 1);
    assert!(m.summary.is_none());
    assert!(m.latest_period.is_none());
}

#[test]
fn version_tokens_move_with_their_facet() {
    let mut m = TestInfoManager::new(None);
    let t0 = m.thresholds_state;
    let c0 = m.console_messages_state;
    let g0 = m.messages_state;
    m.process_threshold(threshold("src-a", "m::one"));
    assert_ne!(m.thresholds_state, t0);
    assert_eq!(m.console_messages_state, c0);
    m.process_console_message(console("oops", "warn", 1, &[("web", 1)]));
    assert_ne!(m.console_messages_state, c0);
    m.add_message("note".to_string());
    assert_ne!(m.messages_state, g0);
    assert_eq!(m.messages, vec!["note".to_string()]);
}
