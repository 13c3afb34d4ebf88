//! The sink calculator: derived numeric fields for one sink, given its
//! declared kind, its period and the prior period's stored state.
//!
//! * `Counter` sinks require a `count` label and derive
//!   `mean = count / (6 * (period + 1))` — the all-time average rate since
//!   period zero — and `rate = (count - previous count) / 6`, where the
//!   previous count is the `count` stored for the same sink name at the
//!   prior period, or zero when no such interval, sink or label is stored
//!   (the period-zero case falls out of the same formula).
//! * `Rate` sinks require `pass` and `total` and derive
//!   `fail = total - pass`.
//! * Any other kind passes through unmodified.
//!
//! Quotients are rounded to the nearest fixed-point step, half away from
//! zero; differences saturate at the `i64` range.

use vstd::prelude::*;
use vstd::string::StringExecFns;
use crate::arith::{div_round, div_round_i64, sat_sub, sat_sub_i64};
use crate::entries::{entry_get, entry_set, clone_entries};
use crate::types::{Sink, SinkV, SinkKind, IntervalV, EngineError, sink_lookup};
use crate::intervals::{spec_interval_at, find_interval_index};
use crate::manager::{TestInfoManager, ivs_of};

verus! {

/// Length of one period bucket, in seconds.
pub const INTERVAL_PERIOD_SECONDS: i64 = 6;

/// All-time mean rate of a counter: its count over the seconds elapsed
/// through the end of its period.
pub open spec fn counter_mean(count: int, period: int) -> int {
    div_round(count, 6 * (period + 1))
}

/// Per-period rate of a counter: the count gained over the prior period's
/// stored count, per second of one period.
pub open spec fn counter_rate(count: int, prev_count: int) -> int {
    div_round(sat_sub(count, prev_count), 6)
}

/// The `count` stored for `name` in the interval at `period - 1`, or zero
/// when period zero, or when no such interval, sink or label is stored.
pub open spec fn spec_prev_count(ivs: Seq<IntervalV>, name: Seq<char>, period: int) -> int {
    if period <= 0 {
        0
    } else {
        match spec_interval_at(ivs, period - 1) {
            Option::None => 0,
            Option::Some(iv) => match sink_lookup(iv.sinks, name) {
                Option::None => 0,
                Option::Some(s) => if s.labels.contains_key("count"@) {
                    s.labels["count"@] as int
                } else {
                    0
                },
            },
        }
    }
}

/// The label a sink of this kind requires but lacks, if any; `pass` is
/// checked before `total`.
pub open spec fn missing_label_of(s: SinkV) -> Option<Seq<char>> {
    match s.kind {
        SinkKind::Counter => if !s.labels.contains_key("count"@) {
            Option::Some("count"@)
        } else {
            Option::None
        },
        SinkKind::Rate => if !s.labels.contains_key("pass"@) {
            Option::Some("pass"@)
        } else if !s.labels.contains_key("total"@) {
            Option::Some("total"@)
        } else {
            Option::None
        },
        SinkKind::Other => Option::None,
    }
}

/// A counter sink's labels after derivation.
pub open spec fn calc_counter_labels(
    labels: Map<Seq<char>, i64>,
    prev_count: int,
    period: int,
) -> Map<Seq<char>, i64>
    recommends
        labels.contains_key("count"@),
{
    let count = labels["count"@] as int;
    labels.insert("mean"@, counter_mean(count, period) as i64).insert(
        "rate"@,
        counter_rate(count, prev_count) as i64,
    )
}

/// A rate sink's labels after derivation.
pub open spec fn calc_rate_labels(labels: Map<Seq<char>, i64>) -> Map<Seq<char>, i64>
    recommends
        labels.contains_key("pass"@),
        labels.contains_key("total"@),
{
    labels.insert("fail"@, sat_sub(labels["total"@] as int, labels["pass"@] as int) as i64)
}

/// The sink as stored after derivation, given the run's intervals.
pub open spec fn spec_enriched_sink(
    ivs: Seq<IntervalV>,
    name: Seq<char>,
    s: SinkV,
    period: int,
) -> SinkV
    recommends
        missing_label_of(s) is None,
{
    match s.kind {
        SinkKind::Counter => SinkV {
            kind: s.kind,
            labels: calc_counter_labels(s.labels, spec_prev_count(ivs, name, period), period),
        },
        SinkKind::Rate => SinkV { kind: s.kind, labels: calc_rate_labels(s.labels) },
        SinkKind::Other => s,
    }
}

/// The first sink, in stored order, that lacks a label its kind requires:
/// its name and that label.
pub open spec fn first_missing_sink(sinks: Seq<(Seq<char>, SinkV)>) -> Option<(Seq<char>, Seq<char>)>
    decreases sinks.len(),
{
    if sinks.len() == 0 {
        Option::None
    } else {
        match missing_label_of(sinks[0].1) {
            Option::Some(l) => Option::Some((sinks[0].0, l)),
            Option::None => first_missing_sink(sinks.skip(1)),
        }
    }
}

/// Every sink of the list after derivation, in order.
pub open spec fn enrich_all(
    ivs: Seq<IntervalV>,
    sinks: Seq<(Seq<char>, SinkV)>,
    period: int,
) -> Seq<(Seq<char>, SinkV)> {
    sinks.map_values(|p: (Seq<char>, SinkV)| (p.0, spec_enriched_sink(ivs, p.0, p.1, period)))
}

/// The error names this sink and the label it lacks.
pub open spec fn is_missing_label(e: EngineError, sink: Seq<char>, label: Seq<char>) -> bool {
    &&& e matches EngineError::MissingLabel { sink: es, label: el }
    &&& es@ == sink
    &&& el@ == label
}

impl TestInfoManager {
    /// The `count` stored under `sink_name` at the period before `period`,
    /// or zero where nothing is stored for it.
    pub fn previous_count(&self, sink_name: &str, period: u32) -> (c: i64)
        ensures
            c as int == spec_prev_count(ivs_of(self.intervals@), sink_name@, period as int),
    {
        if period == 0 {
            return 0;
        }
        match find_interval_index(&self.intervals, period - 1) {
            None => 0,
            Some(i) => {
                let interval = &self.intervals[i];
                match crate::entries::entry_find(&interval.sinks, sink_name) {
                    None => {
                        proof {
                            crate::types::lemma_sink_lookup_none(interval@.sinks, sink_name@);
                        }
                        0
                    },
                    Some(j) => {
                        proof {
                            assert(interval@.sinks[j as int]
                                == (interval.sinks@[j as int].name@, interval.sinks@[j as int].value@));
                            crate::types::lemma_sink_lookup_at(
                                interval@.sinks,
                                sink_name@,
                                j as int,
                            );
                        }
                        match entry_get(&interval.sinks[j].value.labels, "count") {
                            Some(c) => c,
                            None => 0,
                        }
                    },
                }
            },
        }
    }

    /// Derived fields for a counter sink: `mean` and `rate`, computed from
    /// its `count` and the prior period's stored count. Fails, changing
    /// nothing, exactly when `count` is absent.
    pub fn calculate_counter_sink_fields(
        &self,
        sink_name: &str,
        sink: &Sink,
        period: u32,
    ) -> (r: Result<Sink, EngineError>)
        requires
            sink@.kind is Counter,
        ensures
            match r {
                Ok(out) => missing_label_of(sink@) is None && out@ == spec_enriched_sink(
                    ivs_of(self.intervals@),
                    sink_name@,
                    sink@,
                    period as int,
                ),
                Err(e) => missing_label_of(sink@) == Option::Some("count"@) && is_missing_label(
                    e,
                    sink_name@,
                    "count"@,
                ),
            },
    {
        match entry_get(&sink.labels, "count") {
            None => Err(
                EngineError::MissingLabel {
                    sink: String::from_str(sink_name),
                    label: String::from_str("count"),
                },
            ),
            Some(count) => {
                let prev = self.previous_count(sink_name, period);
                let divisor: i64 = INTERVAL_PERIOD_SECONDS * ((period as i64) + 1);
                let mean = div_round_i64(count, divisor);
                let rate = div_round_i64(sat_sub_i64(count, prev), INTERVAL_PERIOD_SECONDS);
                let mut labels = clone_entries(&sink.labels);
                entry_set(&mut labels, "mean", mean);
                entry_set(&mut labels, "rate", rate);
                Ok(Sink { kind: sink.kind, labels })
            },
        }
    }

    /// Derived field for a rate sink: `fail = total - pass`. Fails,
    /// changing nothing, exactly when `pass` or `total` is absent.
    pub fn calculate_rate_sink_fields(&self, sink_name: &str, sink: &Sink) -> (r: Result<
        Sink,
        EngineError,
    >)
        requires
            sink@.kind is Rate,
        ensures
            match r {
                Ok(out) => missing_label_of(sink@) is None && out@ == SinkV {
                    kind: sink@.kind,
                    labels: calc_rate_labels(sink@.labels),
                },
                Err(e) => ({
                    let l = missing_label_of(sink@);
                    l is Some && (e matches EngineError::MissingLabel { sink: es, label: el }
                        && es@ == sink_name@ && l == Option::Some(el@))
                }),
            },
    {
        let pass = match entry_get(&sink.labels, "pass") {
            Some(p) => p,
            None => {
                return Err(
                    EngineError::MissingLabel {
                        sink: String::from_str(sink_name),
                        label: String::from_str("pass"),
                    },
                );
            },
        };
        let total = match entry_get(&sink.labels, "total") {
            Some(t) => t,
            None => {
                return Err(
                    EngineError::MissingLabel {
                        sink: String::from_str(sink_name),
                        label: String::from_str("total"),
                    },
                );
            },
        };
        let fail = sat_sub_i64(total, pass);
        let mut labels = clone_entries(&sink.labels);
        entry_set(&mut labels, "fail", fail);
        Ok(Sink { kind: sink.kind, labels })
    }

    /// Derived fields for one sink, dispatched on its kind; sinks of other
    /// kinds pass through unmodified.
    pub fn calculate_sink_fields(&self, sink_name: &str, sink: &Sink, period: u32) -> (r: Result<
        Sink,
        EngineError,
    >)
        ensures
            match r {
                Ok(out) => missing_label_of(sink@) is None && out@ == spec_enriched_sink(
                    ivs_of(self.intervals@),
                    sink_name@,
                    sink@,
                    period as int,
                ),
                Err(e) => ({
                    let l = missing_label_of(sink@);
                    l is Some && (e matches EngineError::MissingLabel { sink: es, label: el }
                        && es@ == sink_name@ && l == Option::Some(el@))
                }),
            },
    {
        match sink.kind {
            SinkKind::Counter => self.calculate_counter_sink_fields(sink_name, sink, period),
            SinkKind::Rate => self.calculate_rate_sink_fields(sink_name, sink),
            SinkKind::Other => {
                let labels = clone_entries(&sink.labels);
                Ok(Sink { kind: sink.kind, labels })
            },
        }
    }
}

} // verus!
