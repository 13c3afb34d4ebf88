//! The threshold store: the latest definition per source key.

use vstd::prelude::*;
use crate::types::{Threshold, ThresholdV};
use crate::manager::{TestInfoManager, RunV, ths_of, bumped, bump_state};
use crate::paths::str_eq;

verus! {

/// The stored thresholds with the first one keyed by `source` taken out.
pub open spec fn remove_threshold(ts: Seq<ThresholdV>, source: Seq<char>) -> Seq<ThresholdV>
    decreases ts.len(),
{
    if ts.len() == 0 {
        ts
    } else if ts[0].source == source {
        ts.skip(1)
    } else {
        seq![ts[0]] + remove_threshold(ts.skip(1), source)
    }
}

/// A first source match at `i` makes the removal drop exactly that element.
pub proof fn lemma_remove_threshold_at(ts: Seq<ThresholdV>, source: Seq<char>, i: int)
    requires
        0 <= i < ts.len(),
        ts[i].source == source,
        forall|j: int| 0 <= j < i ==> ts[j].source != source,
    ensures
        remove_threshold(ts, source) =~= ts.remove(i),
    decreases ts.len(),
{
    if i > 0 {
        assert(ts.skip(1)[i - 1] == ts[i]);
        lemma_remove_threshold_at(ts.skip(1), source, i - 1);
        assert(seq![ts[0]] + ts.skip(1).remove(i - 1) =~= ts.remove(i));
    } else {
        assert(ts.skip(1) =~= ts.remove(0));
    }
}

/// Without a source match the removal changes nothing.
pub proof fn lemma_remove_threshold_none(ts: Seq<ThresholdV>, source: Seq<char>)
    requires
        forall|j: int| 0 <= j < ts.len() ==> ts[j].source != source,
    ensures
        remove_threshold(ts, source) =~= ts,
    decreases ts.len(),
{
    if ts.len() > 0 {
        lemma_remove_threshold_none(ts.skip(1), source);
        assert(seq![ts[0]] + ts.skip(1) =~= ts);
    }
}

/// With no duplicate sources, the removal leaves no threshold keyed by
/// the removed source.
pub proof fn lemma_remove_threshold_clears(ts: Seq<ThresholdV>, source: Seq<char>)
    requires
        forall|i: int, j: int| 0 <= i < j < ts.len() ==> ts[i].source != ts[j].source,
    ensures
        forall|j: int|
            0 <= j < remove_threshold(ts, source).len() ==> #[trigger] remove_threshold(
                ts,
                source,
            )[j].source != source,
    decreases ts.len(),
{
    let out = remove_threshold(ts, source);
    if ts.len() == 0 {
    } else if ts[0].source == source {
        assert forall|j: int| 0 <= j < out.len() implies #[trigger] out[j].source != source by {
            assert(out[j] == ts[j + 1]);
        }
    } else {
        assert(forall|i: int, j: int|
            0 <= i < j < ts.skip(1).len() ==> ts.skip(1)[i].source != ts.skip(1)[j].source);
        lemma_remove_threshold_clears(ts.skip(1), source);
        assert forall|j: int| 0 <= j < out.len() implies #[trigger] out[j].source != source by {
            if j > 0 {
                assert(out[j] == remove_threshold(ts.skip(1), source)[j - 1]);
            }
        }
    }
}

/// Law: after a threshold is ingested into a store with unique sources,
/// exactly one threshold carries its source — the new one, stored last.
pub proof fn lemma_one_threshold_per_source(ts: Seq<ThresholdV>, t: ThresholdV)
    requires
        forall|i: int, j: int| 0 <= i < j < ts.len() ==> ts[i].source != ts[j].source,
    ensures
        ({
            let ts2 = remove_threshold(ts, t.source).push(t);
            ts2.last() == t && forall|j: int|
                0 <= j < ts2.len() - 1 ==> #[trigger] ts2[j].source != t.source
        }),
{
    lemma_remove_threshold_clears(ts, t.source);
    let ts2 = remove_threshold(ts, t.source).push(t);
    assert forall|j: int| 0 <= j < ts2.len() - 1 implies #[trigger] ts2[j].source != t.source by {
        assert(ts2[j] == remove_threshold(ts, t.source)[j]);
    }
}

/// The run after ingesting a threshold: any stored threshold with the same
/// source is replaced, the new definition goes to the end, and the
/// thresholds facet's version token moves.
pub open spec fn apply_threshold_run(r: RunV, t: ThresholdV) -> RunV {
    RunV {
        thresholds: remove_threshold(r.thresholds, t.source).push(t),
        thresholds_state: bumped(r.thresholds_state),
        ..r
    }
}

/// Index of the first stored threshold keyed by `source`, if any.
fn find_threshold_index(ts: &Vec<Threshold>, source: &str) -> (r: Option<usize>)
    ensures
        match r {
            Some(i) => i < ts@.len() && ts@[i as int]@.source == source@ && (forall|j: int|
                0 <= j < i ==> ts@[j]@.source != source@),
            None => forall|j: int| 0 <= j < ts@.len() ==> ts@[j]@.source != source@,
        },
{
    let mut i: usize = 0;
    while i < ts.len()
        invariant
            i <= ts@.len(),
            forall|j: int| 0 <= j < i ==> ts@[j]@.source != source@,
        decreases ts@.len() - i,
    {
        if str_eq(ts[i].source.as_str(), source) {
            return Some(i);
        }
        i = i + 1;
    }
    None
}

impl TestInfoManager {
    /// Ingests one threshold definition: exactly one threshold per source
    /// key remains, with the newer fields.
    pub fn process_threshold(&mut self, threshold: Threshold)
        requires
            old(self).wf(),
        ensures
            final(self).wf(),
            final(self)@ == apply_threshold_run(old(self)@, threshold@),
    {
        let ghost ts0 = ths_of(self.thresholds@);
        let ghost src = threshold@.source;
        let found = find_threshold_index(&self.thresholds, threshold.source.as_str());
        match found {
            Some(i) => {
                proof {
                    assert(ts0[i as int] == self.thresholds@[i as int]@);
                    assert forall|j: int| 0 <= j < i implies ts0[j].source != src by {
                        assert(ts0[j] == self.thresholds@[j]@);
                    }
                    lemma_remove_threshold_at(ts0, src, i as int);
                }
                self.thresholds.remove(i);
                proof {
                    assert(ths_of(self.thresholds@) =~= ts0.remove(i as int));
                    assert forall|j: int|
                        0 <= j < self.thresholds@.len() implies self.thresholds@[j]@.source
                        != src by {
                        let v = ths_of(self.thresholds@);
                        assert(v[j] == self.thresholds@[j]@);
                        if j < i {
                            assert(v[j] == ts0[j]);
                        } else {
                            assert(v[j] == ts0[j + 1]);
                            assert(old(self).thresholds@[i as int]@.source != old(
                                self,
                            ).thresholds@[j + 1]@.source);
                        }
                    }
                    assert forall|a: int, b: int|
                        0 <= a < b < self.thresholds@.len() implies self.thresholds@[a]@.source
                        != self.thresholds@[b]@.source by {
                        let a0: int = if a < i { a } else { a + 1 };
                        let b0: int = if b < i { b } else { b + 1 };
                        assert(self.thresholds@[a]@ == ts0[a0]);
                        assert(self.thresholds@[b]@ == ts0[b0]);
                        assert(old(self).thresholds@[a0]@.source != old(
                            self,
                        ).thresholds@[b0]@.source);
                    }
                }
            },
            None => {
                proof {
                    assert forall|j: int| 0 <= j < ts0.len() implies ts0[j].source != src by {
                        assert(ts0[j] == self.thresholds@[j]@);
                    }
                    lemma_remove_threshold_none(ts0, src);
                }
            },
        }
        let ghost removed = ths_of(self.thresholds@);
        let ghost kept = self.thresholds@;
        self.thresholds.push(threshold);
        self.thresholds_state = bump_state(self.thresholds_state);
        proof {
            assert(ths_of(self.thresholds@) =~= removed.push(threshold@));
            assert(self@ =~= apply_threshold_run(old(self)@, threshold@));
            assert forall|a: int, b: int|
                0 <= a < b < self.thresholds@.len() implies self.thresholds@[a]@.source
                != self.thresholds@[b]@.source by {
                if b + 1 == self.thresholds@.len() {
                    assert(self.thresholds@[a] == kept[a]);
                    assert(kept[a]@.source != src);
                    assert(self.thresholds@[b]@.source == src);
                } else {
                    assert(self.thresholds@[a] == kept[a]);
                    assert(self.thresholds@[b] == kept[b]);
                }
            }
        }
    }
}

} // verus!
