//! The interval store: period-keyed lookup over the ordered interval
//! collection.

use vstd::prelude::*;
use crate::types::{Interval, IntervalV};
use crate::manager::ivs_of;

verus! {

/// The first stored interval with the given period, if any. With the
/// store's strictly ascending order it is the only one.
pub open spec fn spec_interval_at(ivs: Seq<IntervalV>, p: int) -> Option<IntervalV>
    decreases ivs.len(),
{
    if ivs.len() == 0 {
        Option::None
    } else if ivs[0].period == p {
        Option::Some(ivs[0])
    } else {
        spec_interval_at(ivs.skip(1), p)
    }
}

/// A first match at `i` decides the period lookup.
pub proof fn lemma_interval_at_found(ivs: Seq<IntervalV>, p: int, i: int)
    requires
        0 <= i < ivs.len(),
        ivs[i].period == p,
        forall|j: int| 0 <= j < i ==> ivs[j].period != p,
    ensures
        spec_interval_at(ivs, p) == Option::Some(ivs[i]),
    decreases ivs.len(),
{
    if i > 0 {
        assert(ivs.skip(1)[i - 1] == ivs[i]);
        lemma_interval_at_found(ivs.skip(1), p, i - 1);
    }
}

/// Without a matching period there is no interval to find.
pub proof fn lemma_interval_at_none(ivs: Seq<IntervalV>, p: int)
    requires
        forall|j: int| 0 <= j < ivs.len() ==> ivs[j].period != p,
    ensures
        spec_interval_at(ivs, p) == Option::None::<IntervalV>,
    decreases ivs.len(),
{
    if ivs.len() > 0 {
        lemma_interval_at_none(ivs.skip(1), p);
    }
}

/// Index of the stored interval with period `p`, if one is stored.
pub fn find_interval_index(intervals: &Vec<Interval>, p: u32) -> (r: Option<usize>)
    ensures
        match r {
            Some(i) => i < intervals@.len() && intervals@[i as int]@.period == p as int
                && spec_interval_at(ivs_of(intervals@), p as int) == Option::Some(
                intervals@[i as int]@,
            ) && (forall|j: int| 0 <= j < i ==> intervals@[j]@.period != p as int),
            None => spec_interval_at(ivs_of(intervals@), p as int) == Option::None::<IntervalV>
                && (forall|j: int| 0 <= j < intervals@.len() ==> intervals@[j]@.period != p as int),
        },
{
    let mut i: usize = 0;
    while i < intervals.len()
        invariant
            i <= intervals@.len(),
            forall|j: int| 0 <= j < i ==> intervals@[j]@.period != p as int,
        decreases intervals@.len() - i,
    {
        if intervals[i].period == p {
            proof {
                lemma_interval_at_found(ivs_of(intervals@), p as int, i as int);
            }
            return Some(i);
        }
        i = i + 1;
    }
    proof {
        lemma_interval_at_none(ivs_of(intervals@), p as int);
    }
    None
}

/// The store after applying one (already enriched) interval: a stored
/// interval with the same period is replaced in place, otherwise the
/// interval enters before the first stored one with a greater period.
pub open spec fn store_insert(ivs: Seq<IntervalV>, niv: IntervalV) -> Seq<IntervalV>
    decreases ivs.len(),
{
    if ivs.len() == 0 {
        seq![niv]
    } else if ivs[0].period == niv.period {
        seq![niv] + ivs.skip(1)
    } else if ivs[0].period > niv.period {
        seq![niv] + ivs
    } else {
        seq![ivs[0]] + store_insert(ivs.skip(1), niv)
    }
}

/// At the first index whose period reaches the new interval's, the insert
/// is an in-place update (same period) or a plain insertion (greater).
pub proof fn lemma_store_insert_at(ivs: Seq<IntervalV>, niv: IntervalV, i: int)
    requires
        0 <= i <= ivs.len(),
        forall|j: int| 0 <= j < i ==> ivs[j].period < niv.period,
        i < ivs.len() ==> ivs[i].period >= niv.period,
    ensures
        i < ivs.len() && ivs[i].period == niv.period ==> store_insert(ivs, niv) =~= ivs.update(
            i,
            niv,
        ),
        i == ivs.len() || ivs[i].period > niv.period ==> store_insert(ivs, niv) =~= ivs.insert(
            i,
            niv,
        ),
    decreases ivs.len(),
{
    if i == 0 {
        if ivs.len() == 0 {
            assert(seq![niv] =~= ivs.insert(0, niv));
        } else if ivs[0].period == niv.period {
            assert(seq![niv] + ivs.skip(1) =~= ivs.update(0, niv));
        } else {
            assert(seq![niv] + ivs =~= ivs.insert(0, niv));
        }
    } else {
        assert(forall|j: int| 0 <= j < i - 1 ==> ivs.skip(1)[j].period < niv.period);
        if i - 1 < ivs.skip(1).len() {
            assert(ivs.skip(1)[i - 1] == ivs[i]);
        }
        lemma_store_insert_at(ivs.skip(1), niv, i - 1);
        if i < ivs.len() && ivs[i].period == niv.period {
            assert(seq![ivs[0]] + ivs.skip(1).update(i - 1, niv) =~= ivs.update(i, niv));
        } else {
            assert(seq![ivs[0]] + ivs.skip(1).insert(i - 1, niv) =~= ivs.insert(i, niv));
        }
    }
}

/// The first index whose stored period reaches `p`, or the store's length.
pub(crate) fn find_insert_position(intervals: &Vec<Interval>, p: u32) -> (pos: usize)
    ensures
        pos <= intervals@.len(),
        forall|j: int| 0 <= j < pos ==> intervals@[j]@.period < p as int,
        pos < intervals@.len() ==> intervals@[pos as int]@.period >= p as int,
{
    let mut i: usize = 0;
    while i < intervals.len()
        invariant
            i <= intervals@.len(),
            forall|j: int| 0 <= j < i ==> intervals@[j]@.period < p as int,
        decreases intervals@.len() - i,
    {
        if intervals[i].period >= p {
            return i;
        }
        i = i + 1;
    }
    i
}

/// Law: after an apply, the store holds the applied interval at its
/// period, and every other period exactly what it held before.
pub proof fn lemma_store_insert_lookup(ivs: Seq<IntervalV>, niv: IntervalV, q: int)
    ensures
        spec_interval_at(store_insert(ivs, niv), niv.period) == Option::Some(niv),
        q != niv.period ==> spec_interval_at(store_insert(ivs, niv), q) == spec_interval_at(
            ivs,
            q,
        ),
    decreases ivs.len(),
{
    let out = store_insert(ivs, niv);
    if ivs.len() == 0 {
        assert(out[0] == niv);
        assert(out.skip(1) =~= Seq::<IntervalV>::empty());
    } else if ivs[0].period == niv.period {
        assert(out[0] == niv);
        assert(out.skip(1) =~= ivs.skip(1));
    } else if ivs[0].period > niv.period {
        assert(out[0] == niv);
        assert(out.skip(1) =~= ivs);
    } else {
        assert(out[0] == ivs[0]);
        assert(out.skip(1) =~= store_insert(ivs.skip(1), niv));
        lemma_store_insert_lookup(ivs.skip(1), niv, q);
    }
}

/// Whether an interval at `p` advances the watermark.
pub open spec fn advancing(latest: Option<int>, p: int) -> bool {
    match latest {
        Option::None => true,
        Option::Some(q) => p > q,
    }
}

/// The run after applying one decoded interval.
///
/// A sink that lacks a label its kind requires rejects the interval:
/// nothing changes, and the error names that sink and label. Otherwise
/// the enriched interval replaces or enters the store in period order and
/// the intervals facet's token moves. Only a watermark-advancing period
/// moves the watermark and recomputes the location index, the checks and
/// the summary; the error of a failed check extraction is reported with
/// the store already updated.
pub open spec fn apply_interval_run(r: crate::manager::RunV, iv: IntervalV) -> (
    crate::manager::RunV,
    Option<(Seq<char>, Seq<char>)>,
) {
    match crate::calc::first_missing_sink(iv.sinks) {
        Option::Some(e) => (r, Option::Some(e)),
        Option::None => {
            let enriched = IntervalV {
                period: iv.period,
                sinks: crate::calc::enrich_all(r.intervals, iv.sinks, iv.period),
            };
            let store2 = store_insert(r.intervals, enriched);
            if !advancing(r.latest_period, iv.period) {
                (
                    crate::manager::RunV {
                        intervals: store2,
                        intervals_state: crate::manager::bumped(r.intervals_state),
                        ..r
                    },
                    Option::None,
                )
            } else {
                let locs2 = crate::manager::add_locations(r.locations, enriched.sinks);
                let cres = crate::checks::spec_update_checks(r.checks, r.thresholds, enriched.sinks);
                (
                    crate::manager::RunV {
                        intervals: store2,
                        intervals_state: crate::manager::bumped(r.intervals_state),
                        latest_period: Option::Some(iv.period),
                        locations: locs2,
                        locations_state: if locs2 == r.locations {
                            r.locations_state
                        } else {
                            crate::manager::bumped(r.locations_state)
                        },
                        summary: Option::Some(store2.last()),
                        summary_state: crate::manager::bumped(r.summary_state),
                        checks: cres.0,
                        checks_state: if cres.2 {
                            crate::manager::bumped(r.checks_state)
                        } else {
                            r.checks_state
                        },
                        ..r
                    },
                    cres.1,
                )
            }
        },
    }
}

/// Law: applying an interval at or below the watermark still replaces
/// that period's stored state, but leaves the watermark, the summary, the
/// locations, the checks, and each of their version tokens exactly as
/// they were; only the intervals facet's token moves.
pub proof fn lemma_stale_apply_keeps_facets(r: crate::manager::RunV, iv: IntervalV)
    requires
        !advancing(r.latest_period, iv.period),
        crate::calc::first_missing_sink(iv.sinks) is None,
    ensures
        ({
            let res = apply_interval_run(r, iv);
            &&& res.1 is None
            &&& res.0.latest_period == r.latest_period
            &&& res.0.summary == r.summary && res.0.summary_state == r.summary_state
            &&& res.0.locations == r.locations && res.0.locations_state == r.locations_state
            &&& res.0.checks == r.checks && res.0.checks_state == r.checks_state
            &&& spec_interval_at(res.0.intervals, iv.period) == Option::Some(
                IntervalV {
                    period: iv.period,
                    sinks: crate::calc::enrich_all(r.intervals, iv.sinks, iv.period),
                },
            )
            &&& res.0.intervals_state == crate::manager::bumped(r.intervals_state)
        }),
{
    let enriched = IntervalV {
        period: iv.period,
        sinks: crate::calc::enrich_all(r.intervals, iv.sinks, iv.period),
    };
    lemma_store_insert_lookup(r.intervals, enriched, 0);
}

impl crate::manager::TestInfoManager {
    /// Every sink of the interval after derivation, in order, or the
    /// first validation error.
    fn enrich_sinks(&self, interval: &Interval) -> (r: Result<
        Vec<crate::entries::Entry<crate::types::Sink>>,
        crate::types::EngineError,
    >)
        ensures
            match r {
                Ok(v) => crate::calc::first_missing_sink(interval@.sinks) is None
                    && crate::types::sink_pairs(v@) == crate::calc::enrich_all(
                    ivs_of(self.intervals@),
                    interval@.sinks,
                    interval@.period,
                ),
                Err(e) => (crate::calc::first_missing_sink(interval@.sinks) matches Some(p)
                    && crate::calc::is_missing_label(e, p.0, p.1)),
            },
    {
        let ghost sinks = interval@.sinks;
        let ghost ivs0 = ivs_of(self.intervals@);
        let ghost target = crate::calc::enrich_all(ivs0, sinks, interval@.period);
        let mut out: Vec<crate::entries::Entry<crate::types::Sink>> = Vec::new();
        let mut i: usize = 0;
        proof {
            assert(sinks.skip(0) =~= sinks);
            assert(crate::types::sink_pairs(out@) =~= target.take(0));
        }
        while i < interval.sinks.len()
            invariant
                i <= interval.sinks@.len(),
                out@.len() == i,
                sinks == interval@.sinks,
                sinks.len() == interval.sinks@.len(),
                ivs0 == ivs_of(self.intervals@),
                target == crate::calc::enrich_all(ivs0, sinks, interval@.period),
                crate::calc::first_missing_sink(sinks) == crate::calc::first_missing_sink(
                    sinks.skip(i as int),
                ),
                crate::types::sink_pairs(out@) == target.take(i as int),
            decreases interval.sinks@.len() - i,
        {
            proof {
                assert(sinks.skip(i as int)[0] == sinks[i as int]);
                assert(sinks.skip(i as int).skip(1) =~= sinks.skip(i as int + 1));
                assert(sinks[i as int] == (interval.sinks@[i as int].name@, interval.sinks@[i as int].value@));
            }
            let entry = &interval.sinks[i];
            match self.calculate_sink_fields(entry.name.as_str(), &entry.value, interval.period) {
                Err(e) => {
                    return Err(e);
                },
                Ok(enriched) => {
                    let ghost before = out@;
                    let name_c = entry.name.clone();
                    out.push(crate::entries::Entry { name: name_c, value: enriched });
                    proof {
                        assert forall|k: int|
                            0 <= k < i + 1 implies crate::types::sink_pairs(out@)[k]
                            == target.take(i as int + 1)[k] by {
                            assert(crate::types::sink_pairs(out@)[k] == (
                                out@[k].name@,
                                out@[k].value@,
                            ));
                            if k < i {
                                assert(out@[k] == before[k]);
                                assert(crate::types::sink_pairs(before)[k] == (
                                    before[k].name@,
                                    before[k].value@,
                                ));
                            } else {
                                assert(target[k] == (
                                    sinks[k].0,
                                    crate::calc::spec_enriched_sink(
                                        ivs0,
                                        sinks[k].0,
                                        sinks[k].1,
                                        interval@.period,
                                    ),
                                ));
                            }
                        }
                        assert(crate::types::sink_pairs(out@) =~= target.take(i as int + 1));
                    }
                    i = i + 1;
                },
            }
        }
        proof {
            assert(sinks.skip(sinks.len() as int).len() == 0);
            assert(target.take(target.len() as int) =~= target);
        }
        Ok(out)
    }

    /// Applies one decoded interval.
    ///
    /// A sink lacking a label its kind requires rejects the interval with
    /// a validation error, changing nothing. Otherwise the enriched
    /// interval replaces or enters the store in period order. Only a
    /// watermark-advancing period moves the watermark and recomputes the
    /// location index, the checks and the summary; a failed check
    /// extraction is reported as an error with the interval nevertheless
    /// stored.
    pub fn process_interval(&mut self, interval: &Interval) -> (r: Result<
        (),
        crate::types::EngineError,
    >)
        requires
            old(self).wf(),
        ensures
            final(self).wf(),
            ({
                let res = apply_interval_run(old(self)@, interval@);
                final(self)@ == res.0 && (match r {
                    Ok(u) => res.1 is None,
                    Err(e) => (res.1 matches Some(p) && crate::calc::is_missing_label(
                        e,
                        p.0,
                        p.1,
                    )),
                })
            }),
    {
        let ghost r0 = self@;
        let ghost ivs0 = ivs_of(self.intervals@);
        let p = interval.period;
        let new_sinks = match self.enrich_sinks(interval) {
            Err(e) => {
                return Err(e);
            },
            Ok(v) => v,
        };
        let new_interval = crate::types::Interval { period: p, sinks: new_sinks };
        let ghost niv = new_interval@;
        proof {
            assert(niv =~= IntervalV {
                period: p as int,
                sinks: crate::calc::enrich_all(ivs0, interval@.sinks, p as int),
            });
        }
        let adv = match self.latest_period {
            None => true,
            Some(q) => p > q,
        };
        let mut checks_err: Option<crate::types::EngineError> = None;
        if adv {
            let changed = crate::manager::update_location_list(&mut self.locations, &new_interval);
            if changed {
                self.locations_state = crate::manager::bump_state(self.locations_state);
            }
            match self.update_checks(&new_interval) {
                Err(e) => {
                    checks_err = Some(e);
                },
                Ok(u) => {},
            }
            self.latest_period = Some(p);
        }
        let ghost pre = self@;
        let pos = find_insert_position(&self.intervals, p);
        proof {
            assert forall|j: int| 0 <= j < pos implies ivs0[j].period < p as int by {
                assert(ivs0[j] == self.intervals@[j]@);
            }
            if (pos as int) < ivs0.len() {
                assert(ivs0[pos as int] == self.intervals@[pos as int]@);
            }
            lemma_store_insert_at(ivs0, niv, pos as int);
        }
        let replace = pos < self.intervals.len() && self.intervals[pos].period == p;
        if replace {
            self.intervals[pos] = new_interval;
            proof {
                assert(ivs_of(self.intervals@) =~= ivs0.update(pos as int, niv));
                assert(ivs_of(self.intervals@) == store_insert(ivs0, niv));
            }
        } else {
            self.intervals.insert(pos, new_interval);
            proof {
                assert(ivs_of(self.intervals@) =~= ivs0.insert(pos as int, niv));
                assert(ivs_of(self.intervals@) == store_insert(ivs0, niv));
            }
        }
        self.intervals_state = crate::manager::bump_state(self.intervals_state);
        proof {
            let store2 = ivs_of(self.intervals@);
            assert forall|a: int, b: int|
                0 <= a < b < store2.len() implies store2[a].period < store2[b].period by {
                if replace {
                    assert(crate::manager::intervals_sorted(ivs0));
                    if a != pos {
                        assert(store2[a] == ivs0[a]);
                    }
                    if b != pos {
                        assert(store2[b] == ivs0[b]);
                    }
                    if a == pos {
                        assert(ivs0[a].period == p as int);
                    }
                    if b == pos {
                        assert(ivs0[b].period == p as int);
                    }
                } else {
                    let a0: int = if a < pos { a } else { a - 1 };
                    let b0: int = if b < pos { b } else { b - 1 };
                    if a != pos && b != pos {
                        assert(store2[a] == ivs0[a0]);
                        assert(store2[b] == ivs0[b0]);
                        if a < pos && b > pos {
                            assert(ivs0[a0].period < p as int);
                            assert(ivs0[b0].period >= p as int);
                        }
                    } else if a == pos {
                        assert(store2[a].period == p as int);
                        assert(store2[b] == ivs0[b0]);
                        assert(ivs0[pos as int].period > p as int);
                        assert(ivs0[b0].period >= ivs0[pos as int].period);
                    } else {
                        assert(store2[b].period == p as int);
                        assert(store2[a] == ivs0[a0]);
                        assert(ivs0[a0].period < p as int);
                    }
                }
            }
        }
        if adv {
            self.update_summary_interval();
            proof {
                assert(self.intervals@.len() > 0);
                assert(ivs_of(self.intervals@).last() == self.intervals@.last()@);
            }
        }
        proof {
            let res = apply_interval_run(r0, interval@);
            assert(self@ =~= res.0);
        }
        match checks_err {
            Some(e) => Err(e),
            None => Ok(()),
        }
    }

    /// Recomputes the summary: the stored interval with the highest
    /// period, or nothing when the store is empty (which leaves the
    /// summary facet's token untouched).
    pub fn update_summary_interval(&mut self)
        ensures
            final(self).intervals == old(self).intervals,
            final(self).thresholds == old(self).thresholds,
            final(self).console_messages == old(self).console_messages,
            final(self).messages == old(self).messages,
            final(self).latest_period == old(self).latest_period,
            final(self).locations == old(self).locations,
            final(self).checks == old(self).checks,
            final(self).intervals_state == old(self).intervals_state,
            final(self).console_messages_state == old(self).console_messages_state,
            final(self).thresholds_state == old(self).thresholds_state,
            final(self).locations_state == old(self).locations_state,
            final(self).checks_state == old(self).checks_state,
            final(self).messages_state == old(self).messages_state,
            old(self).intervals@.len() == 0 ==> final(self).summary is None
                && final(self).summary_state == old(self).summary_state,
            old(self).intervals@.len() > 0 ==> ((final(self).summary matches Some(s)
                && s@ == old(self).intervals@.last()@)
                && final(self).summary_state == crate::manager::bumped(old(self).summary_state)),
    {
        if self.intervals.len() == 0 {
            self.summary = None;
            return;
        }
        let last = crate::types::clone_interval(&self.intervals[self.intervals.len() - 1]);
        self.summary = Some(last);
        self.summary_state = crate::manager::bump_state(self.summary_state);
    }
}

} // verus!
