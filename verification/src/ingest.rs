//! Batch ingestion: thresholds and console events apply immediately in
//! batch order; interval points are collected, sorted ascending by period
//! with the earliest batch entry winning a duplicated period, and applied
//! in that order. Validation errors of single intervals are gathered and
//! reported together; the other points of the batch stay applied.

use vstd::prelude::*;
use crate::types::{Interval, IntervalV, DataPoint, DataPointV, EngineError};
use crate::manager::{TestInfoManager, RunV, ivs_of};
use crate::intervals::apply_interval_run;
use crate::thresholds::apply_threshold_run;
use crate::console::apply_console_run;
use crate::calc::is_missing_label;

verus! {

/// The pending interval list after one more batch interval: ordered by
/// period, and a period already pending keeps its earlier point.
pub open spec fn insert_pending(pend: Seq<IntervalV>, iv: IntervalV) -> Seq<IntervalV>
    decreases pend.len(),
{
    if pend.len() == 0 {
        seq![iv]
    } else if pend[0].period == iv.period {
        pend
    } else if pend[0].period > iv.period {
        seq![iv] + pend
    } else {
        seq![pend[0]] + insert_pending(pend.skip(1), iv)
    }
}

/// At the first index whose period reaches the new interval's, the
/// pending insert keeps the list (same period) or inserts there.
pub proof fn lemma_insert_pending_at(pend: Seq<IntervalV>, iv: IntervalV, i: int)
    requires
        0 <= i <= pend.len(),
        forall|j: int| 0 <= j < i ==> pend[j].period < iv.period,
        i < pend.len() ==> pend[i].period >= iv.period,
    ensures
        i < pend.len() && pend[i].period == iv.period ==> insert_pending(pend, iv) == pend,
        i == pend.len() || pend[i].period > iv.period ==> insert_pending(pend, iv) =~= pend.insert(
            i,
            iv,
        ),
    decreases pend.len(),
{
    if i == 0 {
        if pend.len() == 0 {
            assert(seq![iv] =~= pend.insert(0, iv));
        } else if pend[0].period == iv.period {
        } else {
            assert(seq![iv] + pend =~= pend.insert(0, iv));
        }
    } else {
        assert(forall|j: int| 0 <= j < i - 1 ==> pend.skip(1)[j].period < iv.period);
        if i - 1 < pend.skip(1).len() {
            assert(pend.skip(1)[i - 1] == pend[i]);
        }
        lemma_insert_pending_at(pend.skip(1), iv, i - 1);
        if i < pend.len() && pend[i].period == iv.period {
            assert(seq![pend[0]] + pend.skip(1) =~= pend);
        } else {
            assert(seq![pend[0]] + pend.skip(1).insert(i - 1, iv) =~= pend.insert(i, iv));
        }
    }
}

/// Collects one interval into the pending list.
fn insert_pending_exec(pending: &mut Vec<Interval>, iv: Interval)
    ensures
        ivs_of(final(pending)@) == insert_pending(ivs_of(old(pending)@), iv@),
{
    let ghost pv = ivs_of(pending@);
    let pos = crate::intervals::find_insert_position(pending, iv.period);
    proof {
        assert forall|j: int| 0 <= j < pos implies pv[j].period < iv@.period by {
            assert(pv[j] == pending@[j]@);
        }
        if (pos as int) < pv.len() {
            assert(pv[pos as int] == pending@[pos as int]@);
        }
        lemma_insert_pending_at(pv, iv@, pos as int);
    }
    if pos < pending.len() && pending[pos].period == iv.period {
        return;
    }
    pending.insert(pos, iv);
    proof {
        assert(ivs_of(pending@) =~= pv.insert(pos as int, iv@));
    }
}

/// Law: collecting a batch interval keeps the earliest batch point of
/// each period — a period already pending is left exactly as it was, and
/// a new period's point is found afterwards.
pub proof fn lemma_insert_pending_first_wins(pend: Seq<IntervalV>, iv: IntervalV, q: int)
    requires
        forall|i: int, j: int| 0 <= i < j < pend.len() ==> pend[i].period < pend[j].period,
    ensures
        crate::intervals::spec_interval_at(pend, iv.period) is Some ==> insert_pending(pend, iv)
            == pend,
        crate::intervals::spec_interval_at(pend, iv.period) is None
            ==> crate::intervals::spec_interval_at(insert_pending(pend, iv), iv.period)
            == Option::Some(iv),
        q != iv.period ==> crate::intervals::spec_interval_at(insert_pending(pend, iv), q)
            == crate::intervals::spec_interval_at(pend, q),
    decreases pend.len(),
{
    let out = insert_pending(pend, iv);
    if pend.len() == 0 {
        assert(out[0] == iv);
        assert(out.skip(1) =~= Seq::<IntervalV>::empty());
        assert(q != iv.period ==> crate::intervals::spec_interval_at(out, q)
            == crate::intervals::spec_interval_at(pend, q));
    } else if pend[0].period == iv.period {
        assert(q != iv.period ==> crate::intervals::spec_interval_at(out, q)
            == crate::intervals::spec_interval_at(pend, q));
    } else if pend[0].period > iv.period {
        assert(out[0] == iv);
        assert(out.skip(1) =~= pend);
        assert forall|j: int| 0 <= j < pend.len() implies pend[j].period != iv.period by {
            if j > 0 {
                assert(pend[0].period < pend[j].period);
            }
        }
        crate::intervals::lemma_interval_at_none(pend, iv.period);
        assert(q != iv.period ==> crate::intervals::spec_interval_at(out, q)
            == crate::intervals::spec_interval_at(pend, q));
    } else {
        assert(out[0] == pend[0]);
        assert(out.skip(1) =~= insert_pending(pend.skip(1), iv));
        assert(forall|i: int, j: int|
            0 <= i < j < pend.skip(1).len() ==> pend.skip(1)[i].period < pend.skip(1)[j].period);
        lemma_insert_pending_first_wins(pend.skip(1), iv, q);
        if crate::intervals::spec_interval_at(pend, iv.period) is Some {
            assert(seq![pend[0]] + pend.skip(1) =~= pend);
        }
        assert(q != iv.period ==> crate::intervals::spec_interval_at(out, q)
            == crate::intervals::spec_interval_at(pend, q));
    }
}

/// The run and the pending interval list after the immediate pass over
/// the batch: console and threshold points applied in batch order,
/// interval points collected.
pub open spec fn batch_immediate(r: RunV, dps: Seq<DataPointV>, pend: Seq<IntervalV>) -> (
    RunV,
    Seq<IntervalV>,
)
    decreases dps.len(),
{
    if dps.len() == 0 {
        (r, pend)
    } else {
        match dps[0] {
            DataPointV::Interval(iv) => batch_immediate(r, dps.skip(1), insert_pending(pend, iv)),
            DataPointV::ConsoleMessage(m) => batch_immediate(
                apply_console_run(r, m),
                dps.skip(1),
                pend,
            ),
            DataPointV::Threshold(t) => batch_immediate(
                apply_threshold_run(r, t),
                dps.skip(1),
                pend,
            ),
        }
    }
}

/// The run after applying the given intervals in order, and the gathered
/// validation errors (each a sink name and the label it lacked), appended
/// to `errs`.
pub open spec fn apply_intervals(
    r: RunV,
    ivs: Seq<IntervalV>,
    errs: Seq<(Seq<char>, Seq<char>)>,
) -> (RunV, Seq<(Seq<char>, Seq<char>)>)
    decreases ivs.len(),
{
    if ivs.len() == 0 {
        (r, errs)
    } else {
        let res = apply_interval_run(r, ivs[0]);
        match res.1 {
            Option::Some(e) => apply_intervals(res.0, ivs.skip(1), errs.push(e)),
            Option::None => apply_intervals(res.0, ivs.skip(1), errs),
        }
    }
}

/// The run after one decoded batch, and the validation errors gathered
/// while applying its intervals.
pub open spec fn apply_batch_run(r: RunV, dps: Seq<DataPointV>) -> (
    RunV,
    Seq<(Seq<char>, Seq<char>)>,
) {
    let ph = batch_immediate(r, dps, Seq::empty());
    apply_intervals(ph.0, ph.1, Seq::empty())
}

/// The views of a batch, in batch order.
pub open spec fn dps_of(batch: Seq<DataPoint>) -> Seq<DataPointV> {
    batch.map_values(|d: DataPoint| d@)
}

impl TestInfoManager {
    /// Ingests one decoded batch. Threshold and console points apply
    /// immediately, in batch order. Interval points apply afterwards in
    /// ascending period order, the earliest batch point winning a
    /// duplicated period. An interval rejected by validation leaves an
    /// error in the returned list — empty when everything applied — and
    /// the rest of the batch stands.
    pub fn process_streamed_data(&mut self, batch: Vec<DataPoint>) -> (errors: Vec<EngineError>)
        requires
            old(self).wf(),
        ensures
            final(self).wf(),
            ({
                let res = apply_batch_run(old(self)@, dps_of(batch@));
                final(self)@ == res.0 && errors@.len() == res.1.len() && (forall|k: int|
                    0 <= k < errors@.len() ==> is_missing_label(
                        errors@[k],
                        res.1[k].0,
                        res.1[k].1,
                    ))
            }),
    {
        let ghost dps = dps_of(batch@);
        let ghost r0 = self@;
        let mut batch = batch;
        let mut pending: Vec<Interval> = Vec::new();
        proof {
            assert(dps_of(batch@) =~= dps);
            assert(ivs_of(pending@) =~= Seq::<IntervalV>::empty());
        }
        while batch.len() > 0
            invariant
                self.wf(),
                batch_immediate(r0, dps, Seq::empty()) == batch_immediate(
                    self@,
                    dps_of(batch@),
                    ivs_of(pending@),
                ),
            decreases batch@.len(),
        {
            let ghost rem = dps_of(batch@);
            let dp = batch.remove(0);
            proof {
                assert(rem[0] == dp@);
                assert(dps_of(batch@) =~= rem.skip(1));
            }
            match dp {
                DataPoint::Interval(iv) => {
                    insert_pending_exec(&mut pending, iv);
                },
                DataPoint::ConsoleMessage(m) => {
                    self.process_console_message(m);
                },
                DataPoint::Threshold(t) => {
                    self.process_threshold(t);
                },
            }
        }
        proof {
            assert(dps_of(batch@).len() == 0);
            assert(batch_immediate(r0, dps, Seq::empty()) == (self@, ivs_of(pending@)));
        }
        let ghost ph = batch_immediate(r0, dps, Seq::empty());
        let ghost full = apply_intervals(ph.0, ph.1, Seq::empty());
        let mut errors: Vec<EngineError> = Vec::new();
        let ghost mut acc = Seq::<(Seq<char>, Seq<char>)>::empty();
        let mut j: usize = 0;
        proof {
            assert(ivs_of(pending@).skip(0) =~= ivs_of(pending@));
        }
        while j < pending.len()
            invariant
                self.wf(),
                j <= pending@.len(),
                ph == batch_immediate(r0, dps, Seq::empty()),
                full == apply_intervals(ph.0, ph.1, Seq::empty()),
                ph.1 == ivs_of(pending@),
                full == apply_intervals(self@, ivs_of(pending@).skip(j as int), acc),
                errors@.len() == acc.len(),
                forall|k: int| 0 <= k < acc.len() ==> is_missing_label(
                    errors@[k],
                    acc[k].0,
                    acc[k].1,
                ),
            decreases pending@.len() - j,
        {
            let ghost pend_v = ivs_of(pending@);
            proof {
                assert(pend_v.skip(j as int)[0] == pend_v[j as int]);
                assert(pend_v.skip(j as int).skip(1) =~= pend_v.skip(j as int + 1));
                assert(pend_v[j as int] == pending@[j as int]@);
            }
            let ghost res = apply_interval_run(self@, pend_v[j as int]);
            match self.process_interval(&pending[j]) {
                Err(e) => {
                    let ghost before = errors@;
                    errors.push(e);
                    proof {
                        let pr = choose|pr: (Seq<char>, Seq<char>)| res.1 == Option::Some(pr);
                        assert(is_missing_label(e, pr.0, pr.1));
                        acc = acc.push(pr);
                        assert forall|k: int| 0 <= k < acc.len() implies is_missing_label(
                            errors@[k],
                            acc[k].0,
                            acc[k].1,
                        ) by {
                            if k < acc.len() - 1 {
                                assert(errors@[k] == before[k]);
                            } else {
                                assert(errors@[k] == e);
                            }
                        }
                    }
                },
                Ok(u) => {},
            }
            j = j + 1;
        }
        proof {
            assert(ivs_of(pending@).skip(pending@.len() as int).len() == 0);
        }
        errors
    }
}

} // verus!
