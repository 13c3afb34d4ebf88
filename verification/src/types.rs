//! Data model of one test run: intervals of typed sinks with numeric
//! labels, thresholds, console messages, checks, and the errors the engine
//! reports.
//!
//! Each type has a ghost view: strings become character sequences,
//! association lists become maps (or sequences of pairs where order is
//! meaningful), and every contract speaks over these views.

use vstd::prelude::*;
use crate::entries::{Entry, entries_map};

verus! {

/// How a sink's derived labels are computed.
#[derive(Debug, Clone, Copy, PartialEq, Eq, Structural)]
pub enum SinkKind {
    /// Monotone count; derives `mean` and `rate`.
    Counter,
    /// Pass/total tally; derives `fail`.
    Rate,
    /// Any other sink type; passed through unmodified.
    Other,
}

/// A named metric container: a kind and a mapping from label name to a
/// fixed-point value.
#[derive(Debug, Clone)]
pub struct Sink {
    pub kind: SinkKind,
    pub labels: Vec<Entry<i64>>,
}

/// Ghost view of a sink.
#[verifier::ext_equal]
pub ghost struct SinkV {
    pub kind: SinkKind,
    pub labels: Map<Seq<char>, i64>,
}

impl View for Sink {
    type V = SinkV;

    open spec fn view(&self) -> SinkV {
        SinkV { kind: self.kind, labels: entries_map(self.labels@) }
    }
}

/// All sinks recorded for one period.
#[derive(Debug, Clone)]
pub struct Interval {
    pub period: u32,
    pub sinks: Vec<Entry<Sink>>,
}

/// Ghost view of an interval: the sinks keep their stored order, since the
/// location index reads their names first-seen-first.
#[verifier::ext_equal]
pub ghost struct IntervalV {
    pub period: int,
    pub sinks: Seq<(Seq<char>, SinkV)>,
}

/// The name/view pairs of a sink list, in stored order.
pub open spec fn sink_pairs(s: Seq<Entry<Sink>>) -> Seq<(Seq<char>, SinkV)> {
    s.map_values(|e: Entry<Sink>| (e.name@, e.value@))
}

impl View for Interval {
    type V = IntervalV;

    open spec fn view(&self) -> IntervalV {
        IntervalV { period: self.period as int, sinks: sink_pairs(self.sinks@) }
    }
}

/// The first sink carrying a name decides that name's sink, as in
/// [`entries_map`].
pub open spec fn sink_lookup(sinks: Seq<(Seq<char>, SinkV)>, name: Seq<char>) -> Option<SinkV>
    decreases sinks.len(),
{
    if sinks.len() == 0 {
        Option::None
    } else if sinks[0].0 == name {
        Option::Some(sinks[0].1)
    } else {
        sink_lookup(sinks.skip(1), name)
    }
}

/// A first match at `i` decides the lookup; no match anywhere leaves none.
pub proof fn lemma_sink_lookup_at(sinks: Seq<(Seq<char>, SinkV)>, name: Seq<char>, i: int)
    requires
        0 <= i < sinks.len(),
        sinks[i].0 == name,
        forall|j: int| 0 <= j < i ==> sinks[j].0 != name,
    ensures
        sink_lookup(sinks, name) == Option::Some(sinks[i].1),
    decreases sinks.len(),
{
    if i > 0 {
        assert(sinks.skip(1)[i - 1] == sinks[i]);
        lemma_sink_lookup_at(sinks.skip(1), name, i - 1);
    }
}

/// Without a matching name there is no sink to find.
pub proof fn lemma_sink_lookup_none(sinks: Seq<(Seq<char>, SinkV)>, name: Seq<char>)
    requires
        forall|j: int| 0 <= j < sinks.len() ==> sinks[j].0 != name,
    ensures
        sink_lookup(sinks, name) == Option::None::<SinkV>,
    decreases sinks.len(),
{
    if sinks.len() > 0 {
        lemma_sink_lookup_none(sinks.skip(1), name);
    }
}

/// A pass/fail rule definition, keyed by its source.
#[derive(Debug, Clone)]
pub struct Threshold {
    pub source: String,
    pub metric: String,
    pub abort_on_fail: Option<bool>,
    pub delay_abort_eval: Option<String>,
}

/// Ghost view of a threshold.
#[verifier::ext_equal]
pub ghost struct ThresholdV {
    pub source: Seq<char>,
    pub metric: Seq<char>,
    pub abort_on_fail: Option<bool>,
    pub delay_abort_eval: Option<Seq<char>>,
}

impl View for Threshold {
    type V = ThresholdV;

    open spec fn view(&self) -> ThresholdV {
        ThresholdV {
            source: self.source@,
            metric: self.metric@,
            abort_on_fail: self.abort_on_fail,
            delay_abort_eval: match self.delay_abort_eval {
                Option::Some(ref d) => Option::Some(d@),
                Option::None => Option::None,
            },
        }
    }
}

/// A point in time as the decoder hands it over.
#[derive(Debug, Clone, Copy, PartialEq, Eq, Structural)]
pub struct Timestamp {
    pub seconds: i64,
    pub nanos: u32,
}

/// A deduplicated console log record; identity is `(message, level)`.
#[derive(Debug, Clone)]
pub struct ConsoleMessage {
    pub message: String,
    pub level: String,
    pub first_occurred: Timestamp,
    pub last_occurred: Timestamp,
    /// Occurrences per location.
    pub count: Vec<Entry<u64>>,
}

/// Ghost view of a console message.
#[verifier::ext_equal]
pub ghost struct ConsoleMessageV {
    pub message: Seq<char>,
    pub level: Seq<char>,
    pub first_occurred: Timestamp,
    pub last_occurred: Timestamp,
    pub count: Map<Seq<char>, u64>,
}

impl View for ConsoleMessage {
    type V = ConsoleMessageV;

    open spec fn view(&self) -> ConsoleMessageV {
        ConsoleMessageV {
            message: self.message@,
            level: self.level@,
            first_occurred: self.first_occurred,
            last_occurred: self.last_occurred,
            count: entries_map(self.count@),
        }
    }
}

/// One location's extracted pass/fail figures for a check.
#[derive(Debug, Clone)]
pub struct CheckRate {
    pub sink_path: String,
    /// Whole-unit counts, rounded from the sink's labels.
    pub pass: i64,
    pub fail: i64,
    pub total: i64,
    /// The sink's `rate` label, verbatim (fixed-point).
    pub rate: i64,
}

/// Ghost view of a check rate.
#[verifier::ext_equal]
pub ghost struct CheckRateV {
    pub sink_path: Seq<char>,
    pub pass: int,
    pub fail: int,
    pub total: int,
    pub rate: int,
}

impl View for CheckRate {
    type V = CheckRateV;

    open spec fn view(&self) -> CheckRateV {
        CheckRateV {
            sink_path: self.sink_path@,
            pass: self.pass as int,
            fail: self.fail as int,
            total: self.total as int,
            rate: self.rate as int,
        }
    }
}

/// A named pass/fail evaluation with per-location rates and an optionally
/// linked threshold.
#[derive(Debug, Clone)]
pub struct Check {
    pub name: String,
    pub rates: Vec<Entry<CheckRate>>,
    pub threshold: Option<Threshold>,
}

/// Ghost view of a check.
#[verifier::ext_equal]
pub ghost struct CheckV {
    pub name: Seq<char>,
    pub rates: Map<Seq<char>, CheckRateV>,
    pub threshold: Option<ThresholdV>,
}

impl View for Check {
    type V = CheckV;

    open spec fn view(&self) -> CheckV {
        CheckV {
            name: self.name@,
            rates: entries_map(self.rates@).map_values(|r: CheckRate| r@),
            threshold: match self.threshold {
                Option::Some(ref t) => Option::Some(t@),
                Option::None => Option::None,
            },
        }
    }
}

/// The three independently keyed check collections.
#[derive(Debug, Clone)]
pub struct CheckCollection {
    pub scenarios: Vec<Check>,
    pub groups: Vec<Check>,
    pub named: Vec<Check>,
}

/// Ghost view of the check collections, in stored (first-created) order.
#[verifier::ext_equal]
pub ghost struct CheckCollectionV {
    pub scenarios: Seq<CheckV>,
    pub groups: Seq<CheckV>,
    pub named: Seq<CheckV>,
}

impl View for CheckCollection {
    type V = CheckCollectionV;

    open spec fn view(&self) -> CheckCollectionV {
        CheckCollectionV {
            scenarios: self.scenarios@.map_values(|c: Check| c@),
            groups: self.groups@.map_values(|c: Check| c@),
            named: self.named@.map_values(|c: Check| c@),
        }
    }
}

/// One decoded point of a streamed batch.
#[derive(Debug, Clone)]
pub enum DataPoint {
    Interval(Interval),
    ConsoleMessage(ConsoleMessage),
    Threshold(Threshold),
}

/// A full snapshot of a run's raw state, used to pre-seed a new run.
#[derive(Debug, Clone)]
pub struct TestInfo {
    pub intervals: Vec<Interval>,
    pub thresholds: Vec<Threshold>,
    pub console_messages: Vec<ConsoleMessage>,
    pub messages: Vec<String>,
}

/// The view of an optional threshold.
pub open spec fn th_view(o: Option<Threshold>) -> Option<ThresholdV> {
    match o {
        Option::Some(t) => Option::Some(t@),
        Option::None => Option::None,
    }
}

/// Ghost view of a decoded data point.
pub ghost enum DataPointV {
    Interval(IntervalV),
    ConsoleMessage(ConsoleMessageV),
    Threshold(ThresholdV),
}

impl View for DataPoint {
    type V = DataPointV;

    open spec fn view(&self) -> DataPointV {
        match self {
            DataPoint::Interval(iv) => DataPointV::Interval(iv@),
            DataPoint::ConsoleMessage(m) => DataPointV::ConsoleMessage(m@),
            DataPoint::Threshold(t) => DataPointV::Threshold(t@),
        }
    }
}

/// A copy of a threshold, equal in view.
pub fn clone_threshold(t: &Threshold) -> (r: Threshold)
    ensures
        r@ == t@,
{
    Threshold {
        source: t.source.clone(),
        metric: t.metric.clone(),
        abort_on_fail: t.abort_on_fail,
        delay_abort_eval: match &t.delay_abort_eval {
            Some(d) => Some(d.clone()),
            None => None,
        },
    }
}

/// A copy of a sink, equal in view.
pub fn clone_sink(s: &Sink) -> (r: Sink)
    ensures
        r@ == s@,
{
    Sink { kind: s.kind, labels: crate::entries::clone_entries(&s.labels) }
}

/// A copy of an interval, equal in view.
pub fn clone_interval(iv: &Interval) -> (r: Interval)
    ensures
        r@ == iv@,
{
    let mut sinks: Vec<crate::entries::Entry<Sink>> = Vec::new();
    let mut i: usize = 0;
    while i < iv.sinks.len()
        invariant
            i <= iv.sinks@.len(),
            sinks@.len() == i,
            sink_pairs(sinks@) =~= iv@.sinks.take(i as int),
        decreases iv.sinks@.len() - i,
    {
        let ghost before = sinks@;
        let e = &iv.sinks[i];
        let name_c = e.name.clone();
        let value_c = clone_sink(&e.value);
        sinks.push(crate::entries::Entry { name: name_c, value: value_c });
        proof {
            assert forall|k: int| 0 <= k < i + 1 implies sink_pairs(sinks@)[k] == iv@.sinks.take(
                i as int + 1,
            )[k] by {
                assert(sink_pairs(sinks@)[k] == (sinks@[k].name@, sinks@[k].value@));
                if k < i {
                    assert(sinks@[k] == before[k]);
                    assert(sink_pairs(before)[k] == (before[k].name@, before[k].value@));
                } else {
                    assert(sinks@[k].name@ == iv.sinks@[k].name@);
                    assert(sinks@[k].value@ == iv.sinks@[k].value@);
                    assert(iv@.sinks[k] == (iv.sinks@[k].name@, iv.sinks@[k].value@));
                }
            }
            assert(sink_pairs(sinks@) =~= iv@.sinks.take(i as int + 1));
        }
        i = i + 1;
    }
    let r = Interval { period: iv.period, sinks };
    proof {
        assert(iv@.sinks.take(iv.sinks@.len() as int) =~= iv@.sinks);
        assert(r@ =~= iv@);
    }
    r
}

/// A structured failure: which rule was violated and on which names.
#[derive(Debug, Clone)]
pub enum EngineError {
    /// A sink of a kind that requires `label` was ingested without it, or a
    /// check sink lacks one of the labels its extraction reads.
    MissingLabel { sink: String, label: String },
    /// The probed sink name appears in none of the first probed intervals.
    SinkNotFound { sink: String },
    /// The probed label appears in none of the first probed intervals.
    LabelNotFound { label: String },
    /// A combined time-series path with fewer than two segments.
    PathTooShort,
}

} // verus!
