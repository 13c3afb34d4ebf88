//! The per-run aggregation engine: owned collections, per-facet version
//! tokens, and run creation.

use vstd::prelude::*;
use crate::types::{
    Interval, IntervalV, Threshold, ConsoleMessage, CheckCollection, TestInfo,
};
use crate::paths::split_path;

verus! {

/// A version token changes to a fresh value on every mutation of its facet,
/// by counting mutations; only inequality with an earlier token is
/// meaningful. The count stops moving at the top of the `u64` range, which
/// no run of mutations reaches in practice.
pub open spec fn bumped(v: u64) -> u64 {
    if v < u64::MAX {
        (v + 1) as u64
    } else {
        v
    }
}

/// The next version token after a mutation.
pub fn bump_state(v: u64) -> (r: u64)
    ensures
        r == bumped(v),
{
    if v < u64::MAX {
        v + 1
    } else {
        v
    }
}

/// The views of a run's intervals, in stored order.
pub open spec fn ivs_of(intervals: Seq<Interval>) -> Seq<IntervalV> {
    intervals.map_values(|iv: Interval| iv@)
}

/// The views of the stored locations, in first-seen order.
pub open spec fn locs_of(locations: Seq<String>) -> Seq<Seq<char>> {
    locations.map_values(|l: String| l@)
}

/// Intervals strictly ascending by period: sorted, and unique by period.
pub open spec fn intervals_sorted(ivs: Seq<IntervalV>) -> bool {
    forall|i: int, j: int| 0 <= i < j < ivs.len() ==> ivs[i].period < ivs[j].period
}

/// At most one threshold per source key.
pub open spec fn thresholds_unique(ts: Seq<Threshold>) -> bool {
    forall|i: int, j: int| 0 <= i < j < ts.len() ==> ts[i]@.source != ts[j]@.source
}

/// At most one console record per `(message, level)` identity.
pub open spec fn console_unique(ms: Seq<ConsoleMessage>) -> bool {
    forall|i: int, j: int|
        0 <= i < j < ms.len() ==> !(ms[i]@.message == ms[j]@.message && ms[i]@.level
            == ms[j]@.level)
}

/// No location listed twice.
pub open spec fn locations_unique(locs: Seq<Seq<char>>) -> bool {
    forall|i: int, j: int| 0 <= i < j < locs.len() ==> locs[i] != locs[j]
}

/// At most one check per name within one collection.
pub open spec fn checks_unique(cs: Seq<crate::types::Check>) -> bool {
    forall|i: int, j: int| 0 <= i < j < cs.len() ==> cs[i]@.name != cs[j]@.name
}

/// Validity of a decoded snapshot: the interval collection is ordered by
/// period and every keyed collection is free of duplicate keys.
pub open spec fn test_info_wf(ti: TestInfo) -> bool {
    &&& intervals_sorted(ivs_of(ti.intervals@))
    &&& thresholds_unique(ti.thresholds@)
    &&& console_unique(ti.console_messages@)
}

/// The location list after appending the unseen first segments of the
/// given sinks' names, in sink order.
pub open spec fn add_locations(
    locs: Seq<Seq<char>>,
    sinks: Seq<(Seq<char>, crate::types::SinkV)>,
) -> Seq<Seq<char>>
    decreases sinks.len(),
{
    if sinks.len() == 0 {
        locs
    } else {
        let seg = split_path(sinks[0].0)[0];
        add_locations(
            if locs.contains(seg) {
                locs
            } else {
                locs.push(seg)
            },
            sinks.skip(1),
        )
    }
}

/// The location list after scanning every given interval in order.
pub open spec fn add_locations_all(locs: Seq<Seq<char>>, ivs: Seq<IntervalV>) -> Seq<Seq<char>>
    decreases ivs.len(),
{
    if ivs.len() == 0 {
        locs
    } else {
        add_locations_all(add_locations(locs, ivs[0].sinks), ivs.skip(1))
    }
}

/// The aggregation engine for one test run.
///
/// Every facet carries its own version token; a token is regenerated each
/// time that facet's data changes, so a consumer holding a facet's earlier
/// token detects change by comparing tokens.
pub struct TestInfoManager {
    /// Stored intervals, strictly ascending by period.
    pub intervals: Vec<Interval>,
    /// Latest threshold per source key.
    pub thresholds: Vec<Threshold>,
    /// Deduplicated console records.
    pub console_messages: Vec<ConsoleMessage>,
    /// Free-text messages, in arrival order.
    pub messages: Vec<String>,
    /// Watermark: the highest period whose apply triggered the global
    /// recomputations, if any interval has.
    pub latest_period: Option<u32>,
    /// Distinct first path segments of all sink names seen, first-seen order.
    pub locations: Vec<String>,
    /// The run's current representative interval: the stored one with the
    /// highest period.
    pub summary: Option<Interval>,
    /// Check results extracted from watermark-advancing intervals.
    pub checks: CheckCollection,
    pub intervals_state: u64,
    pub console_messages_state: u64,
    pub thresholds_state: u64,
    pub locations_state: u64,
    pub summary_state: u64,
    pub checks_state: u64,
    pub messages_state: u64,
}

/// The views of the stored thresholds, in stored order.
pub open spec fn ths_of(ts: Seq<Threshold>) -> Seq<crate::types::ThresholdV> {
    ts.map_values(|t: Threshold| t@)
}

/// The views of the stored console records, in stored order.
pub open spec fn cms_of(ms: Seq<ConsoleMessage>) -> Seq<crate::types::ConsoleMessageV> {
    ms.map_values(|m: ConsoleMessage| m@)
}

/// The views of the free-text messages, in arrival order.
pub open spec fn msgs_of(ms: Seq<String>) -> Seq<Seq<char>> {
    ms.map_values(|m: String| m@)
}

/// Ghost view of a whole run: every facet's data and its version token.
#[verifier::ext_equal]
pub ghost struct RunV {
    pub intervals: Seq<IntervalV>,
    pub thresholds: Seq<crate::types::ThresholdV>,
    pub console_messages: Seq<crate::types::ConsoleMessageV>,
    pub messages: Seq<Seq<char>>,
    pub latest_period: Option<int>,
    pub locations: Seq<Seq<char>>,
    pub summary: Option<IntervalV>,
    pub checks: crate::types::CheckCollectionV,
    pub intervals_state: u64,
    pub console_messages_state: u64,
    pub thresholds_state: u64,
    pub locations_state: u64,
    pub summary_state: u64,
    pub checks_state: u64,
    pub messages_state: u64,
}

impl View for TestInfoManager {
    type V = RunV;

    open spec fn view(&self) -> RunV {
        RunV {
            intervals: ivs_of(self.intervals@),
            thresholds: ths_of(self.thresholds@),
            console_messages: cms_of(self.console_messages@),
            messages: msgs_of(self.messages@),
            latest_period: match self.latest_period {
                Some(p) => Some(p as int),
                None => None,
            },
            locations: locs_of(self.locations@),
            summary: match self.summary {
                Some(ref iv) => Some(iv@),
                None => None,
            },
            checks: self.checks@,
            intervals_state: self.intervals_state,
            console_messages_state: self.console_messages_state,
            thresholds_state: self.thresholds_state,
            locations_state: self.locations_state,
            summary_state: self.summary_state,
            checks_state: self.checks_state,
            messages_state: self.messages_state,
        }
    }
}

impl TestInfoManager {
    /// Structural soundness of a run's state.
    pub open spec fn wf(&self) -> bool {
        &&& intervals_sorted(ivs_of(self.intervals@))
        &&& thresholds_unique(self.thresholds@)
        &&& console_unique(self.console_messages@)
        &&& locations_unique(locs_of(self.locations@))
        &&& checks_unique(self.checks.scenarios@)
        &&& checks_unique(self.checks.groups@)
        &&& checks_unique(self.checks.named@)
    }

    /// A new run, optionally pre-seeded from a snapshot. Seeding takes the
    /// snapshot's collections as they are and derives the location index
    /// from its intervals; the watermark, the summary and the checks start
    /// empty, exactly as without a snapshot.
    pub fn new(test_info: Option<TestInfo>) -> (m: TestInfoManager)
        requires
            match test_info {
                Some(ti) => test_info_wf(ti),
                None => true,
            },
        ensures
            m.wf(),
            match test_info {
                Some(ti) => {
                    &&& m.intervals == ti.intervals
                    &&& m.thresholds == ti.thresholds
                    &&& m.console_messages == ti.console_messages
                    &&& m.messages == ti.messages
                    &&& locs_of(m.locations@) == add_locations_all(
                        Seq::<Seq<char>>::empty(),
                        ivs_of(ti.intervals@),
                    )
                },
                None => {
                    &&& m.intervals@.len() == 0
                    &&& m.thresholds@.len() == 0
                    &&& m.console_messages@.len() == 0
                    &&& m.messages@.len() == 0
                    &&& m.locations@.len() == 0
                },
            },
            m.latest_period is None,
            m.summary is None,
            m.checks.scenarios@.len() == 0,
            m.checks.groups@.len() == 0,
            m.checks.named@.len() == 0,
            m.intervals_state == 0 && m.console_messages_state == 0 && m.thresholds_state == 0
                && m.locations_state == 0 && m.summary_state == 0 && m.checks_state == 0
                && m.messages_state == 0,
    {
        let mut m = TestInfoManager {
            intervals: Vec::new(),
            thresholds: Vec::new(),
            console_messages: Vec::new(),
            messages: Vec::new(),
            latest_period: None,
            locations: Vec::new(),
            summary: None,
            checks: CheckCollection { scenarios: Vec::new(), groups: Vec::new(), named: Vec::new() },
            intervals_state: 0,
            console_messages_state: 0,
            thresholds_state: 0,
            locations_state: 0,
            summary_state: 0,
            checks_state: 0,
            messages_state: 0,
        };
        match test_info {
            Some(ti) => {
                m.intervals = ti.intervals;
                m.thresholds = ti.thresholds;
                m.console_messages = ti.console_messages;
                m.messages = ti.messages;
                let ghost locs0 = locs_of(m.locations@);
                let ghost all = ivs_of(m.intervals@);
                let mut k: usize = 0;
                proof {
                    assert(all.skip(0) =~= all);
                    assert(locs_of(m.locations@) =~= Seq::<Seq<char>>::empty());
                }
                while k < m.intervals.len()
                    invariant
                        k <= m.intervals@.len(),
                        ivs_of(m.intervals@) == all,
                        intervals_sorted(all),
                        thresholds_unique(m.thresholds@),
                        console_unique(m.console_messages@),
                        locations_unique(locs_of(m.locations@)),
                        checks_unique(m.checks.scenarios@),
                        checks_unique(m.checks.groups@),
                        checks_unique(m.checks.named@),
                        m.intervals@.len() == all.len(),
                        add_locations_all(Seq::<Seq<char>>::empty(), all) == add_locations_all(
                            locs_of(m.locations@),
                            all.skip(k as int),
                        ),
                        m.intervals == ti.intervals,
                        m.thresholds == ti.thresholds,
                        m.console_messages == ti.console_messages,
                        m.messages == ti.messages,
                        m.latest_period is None,
                        m.summary is None,
                        m.checks.scenarios@.len() == 0,
                        m.checks.groups@.len() == 0,
                        m.checks.named@.len() == 0,
                        m.intervals_state == 0 && m.console_messages_state == 0
                            && m.thresholds_state == 0 && m.locations_state == 0
                            && m.summary_state == 0 && m.checks_state == 0 && m.messages_state
                            == 0,
                    decreases m.intervals@.len() - k,
                {
                    proof {
                        assert(all.skip(k as int)[0] == all[k as int]);
                        assert(all[k as int] == m.intervals@[k as int]@);
                    }
                    let mut locations = Vec::new();
                    core::mem::swap(&mut locations, &mut m.locations);
                    update_location_list(&mut locations, &m.intervals[k]);
                    core::mem::swap(&mut locations, &mut m.locations);
                    proof {
                        assert(all.skip(k as int).skip(1) =~= all.skip(k as int + 1));
                    }
                    k = k + 1;
                }
                proof {
                    assert(all.skip(m.intervals@.len() as int).len() == 0);
                }
                m
            },
            None => m,
        }
    }
}

impl crate::types::CheckCollection {
    /// Empty check collections.
    pub fn new() -> (c: crate::types::CheckCollection)
        ensures
            c@.scenarios.len() == 0,
            c@.groups.len() == 0,
            c@.named.len() == 0,
    {
        let c = crate::types::CheckCollection {
            scenarios: Vec::new(),
            groups: Vec::new(),
            named: Vec::new(),
        };
        proof {
            assert(c@.scenarios =~= Seq::<crate::types::CheckV>::empty());
            assert(c@.groups =~= Seq::<crate::types::CheckV>::empty());
            assert(c@.named =~= Seq::<crate::types::CheckV>::empty());
        }
        c
    }
}

impl TestInfoManager {
    /// Appends the unseen first segments of the interval's sink names to
    /// the location index, in sink order; any addition moves the
    /// locations facet's version token.
    pub fn update_locations(&mut self, interval: &Interval)
        requires
            old(self).wf(),
        ensures
            final(self).wf(),
            final(self)@ == (RunV {
                locations: add_locations(old(self)@.locations, interval@.sinks),
                locations_state: if add_locations(old(self)@.locations, interval@.sinks) == old(
                    self,
                )@.locations {
                    old(self)@.locations_state
                } else {
                    bumped(old(self)@.locations_state)
                },
                ..old(self)@
            }),
    {
        let changed = update_location_list(&mut self.locations, interval);
        if changed {
            self.locations_state = bump_state(self.locations_state);
        }
        proof {
            assert(self@ =~= (RunV {
                locations: add_locations(old(self)@.locations, interval@.sinks),
                locations_state: if add_locations(old(self)@.locations, interval@.sinks) == old(
                    self,
                )@.locations {
                    old(self)@.locations_state
                } else {
                    bumped(old(self)@.locations_state)
                },
                ..old(self)@
            }));
        }
    }

    /// Replaces the location index wholesale, moving its version token.
    pub fn set_locations(&mut self, locations: Vec<String>)
        requires
            old(self).wf(),
            locations_unique(locs_of(locations@)),
        ensures
            final(self).wf(),
            final(self)@ == (RunV {
                locations: locs_of(locations@),
                locations_state: bumped(old(self)@.locations_state),
                ..old(self)@
            }),
    {
        self.locations = locations;
        self.locations_state = bump_state(self.locations_state);
        proof {
            assert(self@ =~= (RunV {
                locations: locs_of(locations@),
                locations_state: bumped(old(self)@.locations_state),
                ..old(self)@
            }));
        }
    }

    /// Records one free-text message at the end of the run's list.
    pub fn add_message(&mut self, message: String)
        requires
            old(self).wf(),
        ensures
            final(self).wf(),
            final(self)@ == (RunV {
                messages: old(self)@.messages.push(message@),
                messages_state: bumped(old(self)@.messages_state),
                ..old(self)@
            }),
    {
        let ghost before = msgs_of(self.messages@);
        self.messages.push(message);
        self.messages_state = bump_state(self.messages_state);
        proof {
            assert(msgs_of(self.messages@) =~= before.push(message@));
            assert(self@ =~= (RunV {
                messages: old(self)@.messages.push(message@),
                messages_state: bumped(old(self)@.messages_state),
                ..old(self)@
            }));
        }
    }
}

/// Appends to `locations` the unseen first segments of the interval's sink
/// names, in sink order; reports whether anything was appended.
pub fn update_location_list(locations: &mut Vec<String>, interval: &Interval) -> (changed: bool)
    requires
        locations_unique(locs_of(old(locations)@)),
    ensures
        locations_unique(locs_of(final(locations)@)),
        locs_of(final(locations)@) == add_locations(locs_of(old(locations)@), interval@.sinks),
        changed == (locs_of(final(locations)@) != locs_of(old(locations)@)),
{
    let mut changed = false;
    let mut i: usize = 0;
    let ghost sinks = interval@.sinks;
    let ghost locs0 = locs_of(old(locations)@);
    proof {
        assert(sinks.skip(0) =~= sinks);
    }
    while i < interval.sinks.len()
        invariant
            i <= interval.sinks@.len(),
            sinks == interval@.sinks,
            sinks.len() == interval.sinks@.len(),
            locations_unique(locs_of(locations@)),
            add_locations(locs0, sinks) == add_locations(
                locs_of(locations@),
                sinks.skip(i as int),
            ),
            changed == (locs_of(locations@) != locs0),
            !changed ==> locations@ == old(locations)@,
            changed ==> locs_of(locations@).len() > locs0.len(),
        decreases interval.sinks@.len() - i,
    {
        let seg = crate::paths::first_segment(interval.sinks[i].name.as_str());
        proof {
            assert(sinks[i as int].0 == interval.sinks@[i as int].name@);
        }
        let present = contains_string(&locations, seg.as_str());
        if !present {
            let ghost before = locs_of(locations@);
            locations.push(seg);
            proof {
                assert(locs_of(locations@) =~= before.push(seg@));
                assert(locs_of(locations@) != locs0) by {
                    assert(locs_of(locations@).len() > locs0.len());
                }
            }
            changed = true;
        }
        proof {
            assert(sinks.skip(i as int).skip(1) =~= sinks.skip(i as int + 1));
            assert(sinks.skip(i as int)[0] == sinks[i as int]);
        }
        i = i + 1;
    }
    proof {
        assert(sinks.skip(interval.sinks@.len() as int).len() == 0);
    }
    changed
}

/// Whether some stored string holds the same characters as `s`.
pub fn contains_string(v: &Vec<String>, s: &str) -> (r: bool)
    ensures
        r == locs_of(v@).contains(s@),
{
    let mut i: usize = 0;
    while i < v.len()
        invariant
            i <= v@.len(),
            forall|j: int| 0 <= j < i ==> v@[j]@ != s@,
        decreases v@.len() - i,
    {
        if crate::paths::str_eq(v[i].as_str(), s) {
            proof {
                assert(locs_of(v@)[i as int] == s@);
            }
            return true;
        }
        i = i + 1;
    }
    proof {
        if locs_of(v@).contains(s@) {
            let j = choose|j: int| 0 <= j < locs_of(v@).len() && locs_of(v@)[j] == s@;
            assert(v@[j]@ == s@);
        }
    }
    false
}

} // verus!
