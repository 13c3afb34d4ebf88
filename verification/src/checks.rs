//! The check evaluator: pass/fail figures extracted from check sinks.
//!
//! A sink takes part when its name splits on `"::"` into exactly four
//! segments `location::checks::<kind>::<name>` with a kind of `check`,
//! `group` or `scenario`, and its type is `Rate`. The evaluator upserts one
//! [`CheckRate`] per location into the collection matching the kind, keyed
//! by the check's name, and links the first threshold whose `metric`
//! equals the sink's full path. The evaluator reads the interval's sinks
//! as stored, after derivation, so a rate sink's `fail` figure is the
//! derived one. Sinks are read in stored order; a check
//! sink lacking one of `pass`, `fail`, `total`, `rate` stops the
//! evaluation there with a validation error, keeping the upserts made so
//! far.

use vstd::prelude::*;
use vstd::string::StringExecFns;
use crate::arith::{div_round, div_round_i64, LABEL_UNIT};
use crate::entries::{Entry, entries_map, entry_get, entry_set};
use crate::types::{
    Sink, SinkV, Interval, Threshold, ThresholdV, Check, CheckV, CheckRate, CheckRateV,
    CheckCollectionV, EngineError, th_view,
};
use crate::calc::is_missing_label;
use crate::manager::{TestInfoManager, RunV, ths_of, bumped, bump_state, checks_unique};
use crate::paths::{split_path, split_path_exec, seg_views, str_eq};

verus! {

/// Whether this sink's name and type make it a check sink.
pub open spec fn is_check_sink(name: Seq<char>, s: SinkV) -> bool {
    let parts = split_path(name);
    &&& parts.len() == 4
    &&& parts[1] == "checks"@
    &&& (parts[2] == "check"@ || parts[2] == "group"@ || parts[2] == "scenario"@)
    &&& s.kind is Rate
}

/// The first label check extraction needs but the sink lacks, if any.
pub open spec fn check_sink_missing(labels: Map<Seq<char>, i64>) -> Option<Seq<char>> {
    if !labels.contains_key("pass"@) {
        Option::Some("pass"@)
    } else if !labels.contains_key("fail"@) {
        Option::Some("fail"@)
    } else if !labels.contains_key("total"@) {
        Option::Some("total"@)
    } else if !labels.contains_key("rate"@) {
        Option::Some("rate"@)
    } else {
        Option::None
    }
}

/// The figures extracted from a check sink: whole-unit counts rounded to
/// the nearest integer, the `rate` label verbatim.
pub open spec fn spec_check_rate(name: Seq<char>, labels: Map<Seq<char>, i64>) -> CheckRateV
    recommends
        check_sink_missing(labels) is None,
{
    CheckRateV {
        sink_path: name,
        pass: div_round(labels["pass"@] as int, LABEL_UNIT as int),
        fail: div_round(labels["fail"@] as int, LABEL_UNIT as int),
        total: div_round(labels["total"@] as int, LABEL_UNIT as int),
        rate: labels["rate"@] as int,
    }
}

/// The first threshold whose metric equals the sink's full path, if any.
pub open spec fn spec_find_threshold(ts: Seq<ThresholdV>, metric: Seq<char>) -> Option<ThresholdV>
    decreases ts.len(),
{
    if ts.len() == 0 {
        Option::None
    } else if ts[0].metric == metric {
        Option::Some(ts[0])
    } else {
        spec_find_threshold(ts.skip(1), metric)
    }
}

/// A first metric match at `i` decides the linkage.
pub proof fn lemma_find_threshold_at(ts: Seq<ThresholdV>, metric: Seq<char>, i: int)
    requires
        0 <= i < ts.len(),
        ts[i].metric == metric,
        forall|j: int| 0 <= j < i ==> ts[j].metric != metric,
    ensures
        spec_find_threshold(ts, metric) == Option::Some(ts[i]),
    decreases ts.len(),
{
    if i > 0 {
        assert(ts.skip(1)[i - 1] == ts[i]);
        lemma_find_threshold_at(ts.skip(1), metric, i - 1);
    }
}

/// Without a metric match nothing is linked.
pub proof fn lemma_find_threshold_none(ts: Seq<ThresholdV>, metric: Seq<char>)
    requires
        forall|j: int| 0 <= j < ts.len() ==> ts[j].metric != metric,
    ensures
        spec_find_threshold(ts, metric) == Option::None::<ThresholdV>,
    decreases ts.len(),
{
    if ts.len() > 0 {
        lemma_find_threshold_none(ts.skip(1), metric);
    }
}

/// One collection after an upsert: the first check with the given name
/// takes the location's figures and the linked threshold; a missing check
/// is created at the end.
pub open spec fn upsert_check(
    cs: Seq<CheckV>,
    name: Seq<char>,
    loc: Seq<char>,
    cr: CheckRateV,
    th: Option<ThresholdV>,
) -> Seq<CheckV>
    decreases cs.len(),
{
    if cs.len() == 0 {
        seq![CheckV { name, rates: Map::empty().insert(loc, cr), threshold: th }]
    } else if cs[0].name == name {
        seq![CheckV { name: cs[0].name, rates: cs[0].rates.insert(loc, cr), threshold: th }]
            + cs.skip(1)
    } else {
        seq![cs[0]] + upsert_check(cs.skip(1), name, loc, cr, th)
    }
}

/// A first name match at `i` takes the upsert in place.
pub proof fn lemma_upsert_check_at(
    cs: Seq<CheckV>,
    name: Seq<char>,
    loc: Seq<char>,
    cr: CheckRateV,
    th: Option<ThresholdV>,
    i: int,
)
    requires
        0 <= i < cs.len(),
        cs[i].name == name,
        forall|j: int| 0 <= j < i ==> cs[j].name != name,
    ensures
        upsert_check(cs, name, loc, cr, th) =~= cs.update(
            i,
            CheckV { name: cs[i].name, rates: cs[i].rates.insert(loc, cr), threshold: th },
        ),
    decreases cs.len(),
{
    let c = CheckV { name: cs[i].name, rates: cs[i].rates.insert(loc, cr), threshold: th };
    if i > 0 {
        assert(cs.skip(1)[i - 1] == cs[i]);
        lemma_upsert_check_at(cs.skip(1), name, loc, cr, th, i - 1);
        assert(seq![cs[0]] + cs.skip(1).update(i - 1, c) =~= cs.update(i, c));
    } else {
        assert(seq![c] + cs.skip(1) =~= cs.update(0, c));
    }
}

/// Without a name match the upsert creates a check at the end.
pub proof fn lemma_upsert_check_none(
    cs: Seq<CheckV>,
    name: Seq<char>,
    loc: Seq<char>,
    cr: CheckRateV,
    th: Option<ThresholdV>,
)
    requires
        forall|j: int| 0 <= j < cs.len() ==> cs[j].name != name,
    ensures
        upsert_check(cs, name, loc, cr, th) =~= cs.push(
            CheckV { name, rates: Map::empty().insert(loc, cr), threshold: th },
        ),
    decreases cs.len(),
{
    if cs.len() > 0 {
        lemma_upsert_check_none(cs.skip(1), name, loc, cr, th);
        assert(seq![cs[0]] + cs.skip(1).push(
            CheckV { name, rates: Map::empty().insert(loc, cr), threshold: th },
        ) =~= cs.push(CheckV { name, rates: Map::empty().insert(loc, cr), threshold: th }));
    }
}

/// The collections after an upsert into the one selected by the kind
/// segment.
pub open spec fn upsert_into_collection(
    cc: CheckCollectionV,
    kind: Seq<char>,
    name: Seq<char>,
    loc: Seq<char>,
    cr: CheckRateV,
    th: Option<ThresholdV>,
) -> CheckCollectionV {
    if kind == "check"@ {
        CheckCollectionV { named: upsert_check(cc.named, name, loc, cr, th), ..cc }
    } else if kind == "group"@ {
        CheckCollectionV { groups: upsert_check(cc.groups, name, loc, cr, th), ..cc }
    } else {
        CheckCollectionV { scenarios: upsert_check(cc.scenarios, name, loc, cr, th), ..cc }
    }
}

/// The collections, first error and change mark after reading the given
/// sinks in order. An error stops the reading; upserts made before it
/// stand.
pub open spec fn spec_update_checks(
    cc: CheckCollectionV,
    ts: Seq<ThresholdV>,
    sinks: Seq<(Seq<char>, SinkV)>,
) -> (CheckCollectionV, Option<(Seq<char>, Seq<char>)>, bool)
    decreases sinks.len(),
{
    if sinks.len() == 0 {
        (cc, Option::None, false)
    } else {
        let n = sinks[0].0;
        let s = sinks[0].1;
        if !is_check_sink(n, s) {
            spec_update_checks(cc, ts, sinks.skip(1))
        } else {
            match check_sink_missing(s.labels) {
                Option::Some(l) => (cc, Option::Some((n, l)), false),
                Option::None => {
                    let parts = split_path(n);
                    let cc2 = upsert_into_collection(
                        cc,
                        parts[2],
                        parts[3],
                        parts[0],
                        spec_check_rate(n, s.labels),
                        spec_find_threshold(ts, n),
                    );
                    let rest = spec_update_checks(cc2, ts, sinks.skip(1));
                    (rest.0, rest.1, true)
                },
            }
        }
    }
}

/// The run after check evaluation over the given sinks: the collections
/// move to their new state, and the checks facet's token moves exactly
/// when some upsert happened.
pub open spec fn apply_checks_run(r: RunV, sinks: Seq<(Seq<char>, SinkV)>) -> (
    RunV,
    Option<(Seq<char>, Seq<char>)>,
) {
    let res = spec_update_checks(r.checks, r.thresholds, sinks);
    (
        RunV {
            checks: res.0,
            checks_state: if res.2 {
                bumped(r.checks_state)
            } else {
                r.checks_state
            },
            ..r
        },
        res.1,
    )
}

/// The first stored threshold whose metric equals `metric`, copied.
fn find_threshold_match(ts: &Vec<Threshold>, metric: &str) -> (r: Option<Threshold>)
    ensures
        th_view(r) == spec_find_threshold(ths_of(ts@), metric@),
{
    let mut i: usize = 0;
    while i < ts.len()
        invariant
            i <= ts@.len(),
            forall|j: int| 0 <= j < i ==> ts@[j]@.metric != metric@,
        decreases ts@.len() - i,
    {
        if str_eq(ts[i].metric.as_str(), metric) {
            proof {
                assert(ths_of(ts@)[i as int] == ts@[i as int]@);
                assert forall|j: int| 0 <= j < i implies ths_of(ts@)[j].metric != metric@ by {
                    assert(ths_of(ts@)[j] == ts@[j]@);
                }
                lemma_find_threshold_at(ths_of(ts@), metric@, i as int);
            }
            return Some(crate::types::clone_threshold(&ts[i]));
        }
        i = i + 1;
    }
    proof {
        assert forall|j: int| 0 <= j < ths_of(ts@).len() implies ths_of(ts@)[j].metric
            != metric@ by {
            assert(ths_of(ts@)[j] == ts@[j]@);
        }
        lemma_find_threshold_none(ths_of(ts@), metric@);
    }
    None
}

/// The views of a check list, in stored order.
pub open spec fn cks_of(cs: Seq<Check>) -> Seq<CheckV> {
    cs.map_values(|c: Check| c@)
}

/// Index of the first check with the given name, if any.
fn find_check_index(cs: &Vec<Check>, name: &str) -> (r: Option<usize>)
    ensures
        match r {
            Some(i) => i < cs@.len() && cs@[i as int]@.name == name@ && (forall|j: int|
                0 <= j < i ==> cs@[j]@.name != name@),
            None => forall|j: int| 0 <= j < cs@.len() ==> cs@[j]@.name != name@,
        },
{
    let mut i: usize = 0;
    while i < cs.len()
        invariant
            i <= cs@.len(),
            forall|j: int| 0 <= j < i ==> cs@[j]@.name != name@,
        decreases cs@.len() - i,
    {
        if str_eq(cs[i].name.as_str(), name) {
            return Some(i);
        }
        i = i + 1;
    }
    None
}

/// Upserts one location's figures into a check list.
fn upsert_check_vec(
    cs: &mut Vec<Check>,
    check_name: String,
    location: &str,
    cr: CheckRate,
    th: Option<Threshold>,
)
    requires
        checks_unique(old(cs)@),
    ensures
        checks_unique(final(cs)@),
        cks_of(final(cs)@) == upsert_check(
            cks_of(old(cs)@),
            check_name@,
            location@,
            cr@,
            th_view(th),
        ),
{
    let ghost cs0 = cks_of(cs@);
    let ghost crv = cr@;
    let ghost thv = th_view(th);
    let found = find_check_index(cs, check_name.as_str());
    match found {
        Some(i) => {
            proof {
                assert(cs0[i as int] == cs@[i as int]@);
                assert forall|j: int| 0 <= j < i implies cs0[j].name != check_name@ by {
                    assert(cs0[j] == cs@[j]@);
                }
                lemma_upsert_check_at(cs0, check_name@, location@, crv, thv, i as int);
            }
            let ghost kept = cs@;
            let mut c = cs.remove(i);
            let ghost c0 = c@;
            entry_set(&mut c.rates, location, cr);
            c.threshold = th;
            proof {
                assert(entries_map(c.rates@).map_values(|r: CheckRate| r@) =~= c0.rates.insert(
                    location@,
                    crv,
                ));
                assert(c@ =~= CheckV { name: c0.name, rates: c0.rates.insert(location@, crv), threshold: thv });
            }
            cs.insert(i, c);
            proof {
                assert(cs@ =~= kept.update(i as int, cs@[i as int]));
                assert(cks_of(cs@) =~= cs0.update(
                    i as int,
                    CheckV { name: cs0[i as int].name, rates: cs0[i as int].rates.insert(location@, crv), threshold: thv },
                ));
                assert forall|a: int, b: int|
                    0 <= a < b < cs@.len() implies cs@[a]@.name != cs@[b]@.name by {
                    assert(cks_of(cs@)[a] == cs@[a]@);
                    assert(cks_of(cs@)[b] == cs@[b]@);
                    assert(cs0[a] == old(cs)@[a]@);
                    assert(cs0[b] == old(cs)@[b]@);
                }
            }
        },
        None => {
            proof {
                assert forall|j: int| 0 <= j < cs0.len() implies cs0[j].name != check_name@ by {
                    assert(cs0[j] == cs@[j]@);
                }
                lemma_upsert_check_none(cs0, check_name@, location@, crv, thv);
            }
            let ghost kept = cs@;
            let mut rates: Vec<Entry<CheckRate>> = Vec::new();
            entry_set(&mut rates, location, cr);
            let c = Check { name: check_name, rates, threshold: th };
            proof {
                assert(entries_map(c.rates@).map_values(|r: CheckRate| r@) =~= Map::<
                    Seq<char>,
                    CheckRateV,
                >::empty().insert(location@, crv));
                assert(c@ =~= CheckV { name: c.name@, rates: Map::empty().insert(location@, crv), threshold: thv });
            }
            cs.push(c);
            proof {
                assert(cks_of(cs@) =~= cs0.push(
                    CheckV { name: check_name@, rates: Map::empty().insert(location@, crv), threshold: thv },
                ));
                assert forall|a: int, b: int|
                    0 <= a < b < cs@.len() implies cs@[a]@.name != cs@[b]@.name by {
                    if b + 1 == cs@.len() {
                        assert(cs@[a] == kept[a]);
                        assert(cs0[a] == kept[a]@);
                    } else {
                        assert(cs@[a] == kept[a]);
                        assert(cs@[b] == kept[b]);
                        assert(cs0[a] == kept[a]@);
                        assert(cs0[b] == kept[b]@);
                    }
                }
            }
        },
    }
}

/// The check sink's four labels, read in extraction order, or the first
/// one it lacks.
fn extract_check_labels(sink: &Sink) -> (r: Result<(i64, i64, i64, i64), String>)
    ensures
        match r {
            Ok(t) => check_sink_missing(sink@.labels) is None && t.0 == sink@.labels["pass"@]
                && t.1 == sink@.labels["fail"@] && t.2 == sink@.labels["total"@] && t.3
                == sink@.labels["rate"@],
            Err(l) => check_sink_missing(sink@.labels) == Option::Some(l@),
        },
{
    let pass = match entry_get(&sink.labels, "pass") {
        Some(v) => v,
        None => {
            return Err(String::from_str("pass"));
        },
    };
    let fail = match entry_get(&sink.labels, "fail") {
        Some(v) => v,
        None => {
            return Err(String::from_str("fail"));
        },
    };
    let total = match entry_get(&sink.labels, "total") {
        Some(v) => v,
        None => {
            return Err(String::from_str("total"));
        },
    };
    let rate = match entry_get(&sink.labels, "rate") {
        Some(v) => v,
        None => {
            return Err(String::from_str("rate"));
        },
    };
    Ok((pass, fail, total, rate))
}

impl TestInfoManager {
    /// Reads the interval's sinks in order and upserts the figures of
    /// every check sink; the checks facet's token moves exactly when some
    /// upsert happened. A check sink lacking a needed label stops the
    /// evaluation there, keeping the upserts made before it.
    pub fn update_checks(&mut self, interval: &Interval) -> (r: Result<(), EngineError>)
        requires
            old(self).wf(),
        ensures
            final(self).wf(),
            ({
                let res = apply_checks_run(old(self)@, interval@.sinks);
                final(self)@ == res.0 && (match r {
                    Ok(u) => res.1 is None,
                    Err(e) => (res.1 matches Some(p) && is_missing_label(e, p.0, p.1)),
                })
            }),
    {
        let ghost sinks = interval@.sinks;
        let ghost ts = ths_of(self.thresholds@);
        let ghost full = spec_update_checks(old(self)@.checks, ts, sinks);
        let mut changed = false;
        let mut i: usize = 0;
        proof {
            assert(sinks.skip(0) =~= sinks);
        }
        while i < interval.sinks.len()
            invariant
                old(self).wf(),
                i <= interval.sinks@.len(),
                sinks == interval@.sinks,
                sinks.len() == interval.sinks@.len(),
                ts == ths_of(self.thresholds@),
                full == spec_update_checks(old(self)@.checks, ts, sinks),
                self.intervals == old(self).intervals,
                self.thresholds == old(self).thresholds,
                self.console_messages == old(self).console_messages,
                self.messages == old(self).messages,
                self.latest_period == old(self).latest_period,
                self.locations == old(self).locations,
                self.summary == old(self).summary,
                self.intervals_state == old(self).intervals_state,
                self.console_messages_state == old(self).console_messages_state,
                self.thresholds_state == old(self).thresholds_state,
                self.locations_state == old(self).locations_state,
                self.summary_state == old(self).summary_state,
                self.messages_state == old(self).messages_state,
                self.checks_state == old(self).checks_state,
                checks_unique(self.checks.scenarios@),
                checks_unique(self.checks.groups@),
                checks_unique(self.checks.named@),
                ({
                    let rest = spec_update_checks(self.checks@, ts, sinks.skip(i as int));
                    full.0 == rest.0 && full.1 == rest.1 && full.2 == (changed || rest.2)
                }),
            decreases interval.sinks@.len() - i,
        {
            proof {
                assert(sinks.skip(i as int)[0] == sinks[i as int]);
                assert(sinks.skip(i as int).skip(1) =~= sinks.skip(i as int + 1));
                assert(sinks[i as int] == (interval.sinks@[i as int].name@, interval.sinks@[i as int].value@));
            }
            let ghost n = sinks[i as int].0;
            let ghost sv = sinks[i as int].1;
            let parts = split_path_exec(interval.sinks[i].name.as_str());
            let kind_is_rate = match interval.sinks[i].value.kind {
                crate::types::SinkKind::Rate => true,
                _ => false,
            };
            let is_check = parts.len() == 4 && str_eq(parts[1].as_str(), "checks") && (str_eq(
                parts[2].as_str(),
                "check",
            ) || str_eq(parts[2].as_str(), "group") || str_eq(parts[2].as_str(), "scenario"))
                && kind_is_rate;
            proof {
                assert(seg_views(parts@).len() == parts@.len());
                if parts@.len() == 4 {
                    assert(seg_views(parts@)[1] == parts@[1]@);
                    assert(seg_views(parts@)[2] == parts@[2]@);
                }
                assert(is_check == is_check_sink(n, sv));
            }
            if is_check {
                match extract_check_labels(&interval.sinks[i].value) {
                    Err(l) => {
                        proof {
                            let rest = spec_update_checks(self.checks@, ts, sinks.skip(i as int));
                            assert(rest == (self.checks@, Option::Some((n, l@)), false));
                        }
                        if changed {
                            self.checks_state = bump_state(self.checks_state);
                        }
                        proof {
                            assert(self@ =~= apply_checks_run(old(self)@, sinks).0);
                        }
                        return Err(
                            EngineError::MissingLabel {
                                sink: interval.sinks[i].name.clone(),
                                label: l,
                            },
                        );
                    },
                    Ok(t) => {
                        let cr = CheckRate {
                            sink_path: interval.sinks[i].name.clone(),
                            pass: div_round_i64(t.0, LABEL_UNIT),
                            fail: div_round_i64(t.1, LABEL_UNIT),
                            total: div_round_i64(t.2, LABEL_UNIT),
                            rate: t.3,
                        };
                        proof {
                            assert(cr@ =~= spec_check_rate(n, sv.labels));
                        }
                        let th = find_threshold_match(
                            &self.thresholds,
                            interval.sinks[i].name.as_str(),
                        );
                        let ghost cc_before = self.checks@;
                        let check_name = parts[3].clone();
                        proof {
                            assert(seg_views(parts@)[3] == parts@[3]@);
                            assert(seg_views(parts@)[0] == parts@[0]@);
                        }
                        if str_eq(parts[2].as_str(), "check") {
                            upsert_check_vec(
                                &mut self.checks.named,
                                check_name,
                                parts[0].as_str(),
                                cr,
                                th,
                            );
                        } else if str_eq(parts[2].as_str(), "group") {
                            upsert_check_vec(
                                &mut self.checks.groups,
                                check_name,
                                parts[0].as_str(),
                                cr,
                                th,
                            );
                        } else {
                            upsert_check_vec(
                                &mut self.checks.scenarios,
                                check_name,
                                parts[0].as_str(),
                                cr,
                                th,
                            );
                        }
                        proof {
                            let parts_v = split_path(n);
                            assert(self.checks@ =~= upsert_into_collection(
                                cc_before,
                                parts_v[2],
                                parts_v[3],
                                parts_v[0],
                                spec_check_rate(n, sv.labels),
                                spec_find_threshold(ts, n),
                            ));
                        }
                        changed = true;
                    },
                }
            }
            i = i + 1;
        }
        proof {
            assert(sinks.skip(sinks.len() as int).len() == 0);
        }
        if changed {
            self.checks_state = bump_state(self.checks_state);
        }
        proof {
            assert(self@ =~= apply_checks_run(old(self)@, sinks).0);
        }
        Ok(())
    }
}

} // verus!
