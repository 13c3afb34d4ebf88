//! The time-series service: extraction of a `(period, value)` series for
//! one sink/label pair over the stored intervals, and its downsampling.
//!
//! Validation probes the first ten stored intervals only: the sink name,
//! and then the label under it, must appear in one of them, else the
//! query fails. Extraction walks every stored interval in order and
//! substitutes `(0, 0)` where the sink or label is absent, preserving
//! positional alignment with period indices.

use vstd::prelude::*;
use vstd::string::StringExecFns;
use crate::arith::{div_round, div_round_i128, lemma_div_round_rem, lemma_div_round_in_range};
use crate::types::{Interval, IntervalV, EngineError, sink_lookup, lemma_sink_lookup_at,
    lemma_sink_lookup_none};
use crate::entries::{entry_find, entry_get};
use crate::manager::ivs_of;
use crate::paths::{split_path, split_path_exec, join_segs, join_segs_exec, seg_views};

verus! {

/// How a series is reduced before it is returned.
#[derive(Debug, Clone, Copy)]
pub enum DownsizingMethod {
    /// Keep at most `max_data_points` (a thousand when omitted) by
    /// selecting evenly spaced original points.
    FixedIntervals { max_data_points: Option<usize> },
    /// Slide a window over the series and emit each window's mean.
    MovingMean { window_size: Option<usize>, max_data_points: Option<usize> },
    /// Return the raw series.
    NoDownsizing,
}

/// One interval's contribution to a series: its period and the label's
/// value, or `(0, 0)` where the sink or label is absent.
pub open spec fn spec_point(iv: IntervalV, sink: Seq<char>, label: Seq<char>) -> (int, int) {
    match sink_lookup(iv.sinks, sink) {
        Option::None => (0, 0),
        Option::Some(s) => if s.labels.contains_key(label) {
            (iv.period, s.labels[label] as int)
        } else {
            (0, 0)
        },
    }
}

/// The raw series of a sink/label pair over the given intervals.
pub open spec fn spec_series(ivs: Seq<IntervalV>, sink: Seq<char>, label: Seq<char>) -> Seq<
    (int, int),
> {
    ivs.map_values(|iv: IntervalV| spec_point(iv, sink, label))
}

/// The integer pairs a vector of points stands for.
pub open spec fn pts_of(s: Seq<(u32, i64)>) -> Seq<(int, int)> {
    s.map_values(|p: (u32, i64)| (p.0 as int, p.1 as int))
}

/// How many of the first ten intervals the probe reads.
pub open spec fn probe_len(ivs: Seq<IntervalV>) -> int {
    if ivs.len() < 10 {
        ivs.len() as int
    } else {
        10
    }
}

/// Whether the probed prefix stores the sink at all.
pub open spec fn probe_sink_found(ivs: Seq<IntervalV>, sink: Seq<char>) -> bool {
    exists|i: int|
        #![trigger sink_lookup(ivs[i].sinks, sink)]
        0 <= i < probe_len(ivs) && sink_lookup(ivs[i].sinks, sink) is Some
}

/// Whether the probed prefix stores the label under the sink.
pub open spec fn probe_label_found(ivs: Seq<IntervalV>, sink: Seq<char>, label: Seq<char>) -> bool {
    exists|i: int|
        #![trigger sink_lookup(ivs[i].sinks, sink)]
        0 <= i < probe_len(ivs) && match sink_lookup(ivs[i].sinks, sink) {
            Option::Some(s) => s.labels.contains_key(label),
            Option::None => false,
        }
}

/// The index selected for output slot `i` of a fixed-interval decimation:
/// the nearest original index to `i` strides, never past the end.
pub open spec fn decim_index(i: int, n: int, m: int) -> int
    recommends
        m >= 2,
        n > m,
{
    let j = div_round(i * (n - 1), m - 1);
    if j >= n {
        n - 1
    } else {
        j
    }
}

/// A series decimated to at most `max` evenly spaced original points.
pub open spec fn spec_fixed(data: Seq<(int, int)>, max: int) -> Seq<(int, int)> {
    let n = data.len() as int;
    if max <= 0 {
        Seq::empty()
    } else if n <= max {
        data
    } else if max == 1 {
        seq![data[0]]
    } else {
        Seq::new(max as nat, |i: int| data[decim_index(i, n, max)])
    }
}

/// The sum of the values of `data[from..to]`.
pub open spec fn sum_vals(data: Seq<(int, int)>, from: int, to: int) -> int
    decreases to - from,
{
    if from >= to {
        0
    } else {
        data[from].1 + sum_vals(data, from + 1, to)
    }
}

/// One more summand extends the sum at its end.
pub proof fn lemma_sum_push(data: Seq<(int, int)>, from: int, to: int)
    requires
        from <= to,
    ensures
        sum_vals(data, from, to + 1) == sum_vals(data, from, to) + data[to].1,
    decreases to - from,
{
    if from < to {
        lemma_sum_push(data, from + 1, to);
    } else {
        assert(sum_vals(data, to + 1, to + 1) == 0);
    }
}

/// A sum of `i64`-bounded values is bounded by its length's multiples of
/// the `i64` range.
pub proof fn lemma_sum_bounds(data: Seq<(int, int)>, from: int, to: int)
    requires
        0 <= from <= to <= data.len(),
        forall|j: int| 0 <= j < data.len() ==> i64::MIN <= #[trigger] data[j].1 <= i64::MAX,
    ensures
        (to - from) * (i64::MIN as int) <= sum_vals(data, from, to) <= (to - from) * (
        i64::MAX as int),
    decreases to - from,
{
    if from < to {
        lemma_sum_bounds(data, from + 1, to);
        assert((to - from) * (i64::MIN as int) == i64::MIN as int + (to - from - 1) * (
        i64::MIN as int)) by (nonlinear_arith);
        assert((to - from) * (i64::MAX as int) == i64::MAX as int + (to - from - 1) * (
        i64::MAX as int)) by (nonlinear_arith);
    }
}

/// The window size used when the caller leaves it open: one point per
/// emitted point, or at least one.
pub open spec fn spec_window_size(n: int, ws: Option<usize>, max: int) -> int {
    match ws {
        Option::Some(w) => w as int,
        Option::None => if n < max {
            1
        } else {
            n / max
        },
    }
}

/// A series reduced to the means of a sliding window: point `k` carries
/// the period at the middle of window `k` and the rounded mean of its
/// values. Emission stops at `max` points or when the window can no
/// longer advance; a window larger than the series, a zero window or a
/// zero budget give an empty series.
pub open spec fn spec_moving_mean(data: Seq<(int, int)>, ws: int, max: int) -> Seq<(int, int)> {
    if max <= 0 || ws <= 0 || data.len() < ws {
        Seq::empty()
    } else {
        let count = if data.len() - ws + 1 < max {
            data.len() - ws + 1
        } else {
            max as int
        };
        Seq::new(
            count as nat,
            |k: int| (data[k + ws / 2].0, div_round(sum_vals(data, k, k + ws), ws)),
        )
    }
}

/// A series downsampled as the caller selected.
pub open spec fn spec_downsampled(series: Seq<(int, int)>, method: DownsizingMethod) -> Seq<
    (int, int),
> {
    match method {
        DownsizingMethod::FixedIntervals { max_data_points } => {
            let max = match max_data_points {
                Option::Some(m) => m as int,
                Option::None => 1000,
            };
            spec_fixed(series, max)
        },
        DownsizingMethod::MovingMean { window_size, max_data_points } => {
            let max = match max_data_points {
                Option::Some(m) => m as int,
                Option::None => 1000,
            };
            spec_moving_mean(
                series,
                spec_window_size(series.len() as int, window_size, max),
                max,
            )
        },
        DownsizingMethod::NoDownsizing => series,
    }
}

/// One interval's point for a sink/label pair: `(period, value)`, or
/// `(0, 0)` where the sink or label is absent there.
pub fn interval_to_time_series(interval: &Interval, sink_path: &str, label: &str) -> (r: (
    u32,
    i64,
))
    ensures
        (r.0 as int, r.1 as int) == spec_point(interval@, sink_path@, label@),
{
    match entry_find(&interval.sinks, sink_path) {
        None => {
            proof {
                lemma_sink_lookup_none(interval@.sinks, sink_path@);
            }
            (0, 0)
        },
        Some(i) => {
            proof {
                assert(interval@.sinks[i as int] == (
                    interval.sinks@[i as int].name@,
                    interval.sinks@[i as int].value@,
                ));
                lemma_sink_lookup_at(interval@.sinks, sink_path@, i as int);
            }
            match entry_get(&interval.sinks[i].value.labels, label) {
                Some(v) => (interval.period, v),
                None => (0, 0),
            }
        },
    }
}

/// Whether one of the first ten stored intervals holds the sink.
fn probe_sink(intervals: &Vec<Interval>, sink_path: &str) -> (found: bool)
    ensures
        found == probe_sink_found(ivs_of(intervals@), sink_path@),
{
    let ghost ivs = ivs_of(intervals@);
    let lim: usize = if intervals.len() < 10 {
        intervals.len()
    } else {
        10
    };
    let mut i: usize = 0;
    while i < lim
        invariant
            i <= lim,
            lim == probe_len(ivs),
            ivs == ivs_of(intervals@),
            forall|j: int| 0 <= j < i ==> #[trigger] sink_lookup(ivs[j].sinks, sink_path@)
                is None,
        decreases lim - i,
    {
        proof {
            assert(ivs[i as int] == intervals@[i as int]@);
        }
        match entry_find(&intervals[i].sinks, sink_path) {
            Some(k) => {
                proof {
                    assert(intervals@[i as int]@.sinks[k as int] == (
                        intervals@[i as int].sinks@[k as int].name@,
                        intervals@[i as int].sinks@[k as int].value@,
                    ));
                    lemma_sink_lookup_at(ivs[i as int].sinks, sink_path@, k as int);
                }
                return true;
            },
            None => {
                proof {
                    lemma_sink_lookup_none(ivs[i as int].sinks, sink_path@);
                }
            },
        }
        i = i + 1;
    }
    false
}

/// Whether one of the first ten stored intervals holds the label under
/// the sink.
fn probe_label(intervals: &Vec<Interval>, sink_path: &str, label: &str) -> (found: bool)
    ensures
        found == probe_label_found(ivs_of(intervals@), sink_path@, label@),
{
    let ghost ivs = ivs_of(intervals@);
    let lim: usize = if intervals.len() < 10 {
        intervals.len()
    } else {
        10
    };
    let mut i: usize = 0;
    while i < lim
        invariant
            i <= lim,
            lim == probe_len(ivs),
            ivs == ivs_of(intervals@),
            forall|j: int|
                0 <= j < i ==> match #[trigger] sink_lookup(ivs[j].sinks, sink_path@) {
                    Option::Some(s) => !s.labels.contains_key(label@),
                    Option::None => true,
                },
        decreases lim - i,
    {
        proof {
            assert(ivs[i as int] == intervals@[i as int]@);
        }
        match entry_find(&intervals[i].sinks, sink_path) {
            Some(k) => {
                proof {
                    assert(intervals@[i as int]@.sinks[k as int] == (
                        intervals@[i as int].sinks@[k as int].name@,
                        intervals@[i as int].sinks@[k as int].value@,
                    ));
                    lemma_sink_lookup_at(ivs[i as int].sinks, sink_path@, k as int);
                }
                match entry_get(&intervals[i].sinks[k].value.labels, label) {
                    Some(v) => {
                        return true;
                    },
                    None => {},
                }
            },
            None => {
                proof {
                    lemma_sink_lookup_none(ivs[i as int].sinks, sink_path@);
                }
            },
        }
        i = i + 1;
    }
    false
}

/// Validates a sink/label pair against the first ten stored intervals:
/// both must appear there, else the query is rejected. A pair first seen
/// later in the store counts as not found.
pub fn inspect_path_for_labels(intervals: &Vec<Interval>, sink_path: &str, label: &str) -> (r:
    Result<(), EngineError>)
    ensures
        ({
            let ivs = ivs_of(intervals@);
            match r {
                Ok(u) => probe_sink_found(ivs, sink_path@) && probe_label_found(
                    ivs,
                    sink_path@,
                    label@,
                ),
                Err(e) => if !probe_sink_found(ivs, sink_path@) {
                    (e matches EngineError::SinkNotFound { sink: s } && s@ == sink_path@)
                } else {
                    !probe_label_found(ivs, sink_path@, label@) && (e
                        matches EngineError::LabelNotFound { label: l } && l@ == label@)
                },
            }
        }),
{
    if !probe_sink(intervals, sink_path) {
        return Err(EngineError::SinkNotFound { sink: String::from_str(sink_path) });
    }
    if !probe_label(intervals, sink_path, label) {
        return Err(EngineError::LabelNotFound { label: String::from_str(label) });
    }
    Ok(())
}

/// A copy of a point vector.
fn copy_points(data: &Vec<(u32, i64)>) -> (r: Vec<(u32, i64)>)
    ensures
        r@ == data@,
{
    let mut r: Vec<(u32, i64)> = Vec::new();
    let mut i: usize = 0;
    while i < data.len()
        invariant
            i <= data@.len(),
            r@ == data@.take(i as int),
        decreases data@.len() - i,
    {
        r.push(data[i]);
        proof {
            assert(r@ =~= data@.take(i as int + 1));
        }
        i = i + 1;
    }
    proof {
        assert(data@.take(data@.len() as int) =~= data@);
    }
    r
}

/// Decimates a series to at most `max_data_points` (a thousand when
/// omitted) evenly spaced original points: a series no longer than the
/// budget is returned unchanged; otherwise output slot `i` takes the
/// original point nearest to `i` strides, and the last original point is
/// always among the selected.
pub fn fixed_intervals(data: &Vec<(u32, i64)>, max_data_points: Option<usize>) -> (r: Vec<
    (u32, i64),
>)
    ensures
        ({
            let max = match max_data_points {
                Option::Some(m) => m as int,
                Option::None => 1000int,
            };
            pts_of(r@) == spec_fixed(pts_of(data@), max)
        }),
{
    let max: usize = match max_data_points {
        Some(m) => m,
        None => 1000,
    };
    let n = data.len();
    if max == 0 {
        let r: Vec<(u32, i64)> = Vec::new();
        proof {
            assert(pts_of(r@) =~= spec_fixed(pts_of(data@), max as int));
        }
        return r;
    }
    if n <= max {
        let r = copy_points(data);
        return r;
    }
    if max == 1 {
        let mut r: Vec<(u32, i64)> = Vec::new();
        r.push(data[0]);
        proof {
            assert(pts_of(data@)[0] == (data@[0].0 as int, data@[0].1 as int));
            assert(pts_of(r@) =~= spec_fixed(pts_of(data@), 1));
        }
        return r;
    }
    let ghost target = spec_fixed(pts_of(data@), max as int);
    let mut out: Vec<(u32, i64)> = Vec::new();
    let mut i: usize = 0;
    proof {
        assert(pts_of(out@) =~= target.take(0));
    }
    while i < max
        invariant
            i <= max,
            2 <= max < n == data@.len(),
            out@.len() == i,
            target == spec_fixed(pts_of(data@), max as int),
            pts_of(out@) == target.take(i as int),
        decreases max - i,
    {
        proof {
            assert(usize::MAX as int <= u64::MAX as int);
            assert((i as int) * ((n - 1) as int) <= (u64::MAX as int) * (u64::MAX as int))
                by (nonlinear_arith)
                requires
                    0 <= i as int <= u64::MAX as int,
                    0 <= (n - 1) as int <= u64::MAX as int,
            ;
            assert((u64::MAX as int) * (u64::MAX as int) < u128::MAX as int) by (nonlinear_arith);
        }
        let a: u128 = (i as u128) * ((n - 1) as u128);
        let b: u128 = (max - 1) as u128;
        let q: u128 = a / b;
        let rem: u128 = a % b;
        proof {
            crate::arith::lemma_div_round_rem(a as int, b as int);
            vstd::arithmetic::div_mod::lemma_mod_bound(a as int, b as int);
            vstd::arithmetic::div_mod::lemma_div_pos_is_pos(a as int, b as int);
            vstd::arithmetic::div_mod::lemma_div_nonincreasing(a as int, b as int);
        }
        let j128: u128 = if 2 * rem >= b {
            q + 1
        } else {
            q
        };
        let j: usize = if j128 >= n as u128 {
            n - 1
        } else {
            j128 as usize
        };
        proof {
            assert(j as int == decim_index(i as int, n as int, max as int));
            assert(pts_of(data@)[j as int] == (data@[j as int].0 as int, data@[j as int].1 as int));
        }
        let ghost before = out@;
        out.push(data[j]);
        proof {
            assert forall|k: int| 0 <= k < i + 1 implies pts_of(out@)[k] == target.take(
                i as int + 1,
            )[k] by {
                assert(pts_of(out@)[k] == (out@[k].0 as int, out@[k].1 as int));
                if k < i {
                    assert(out@[k] == before[k]);
                    assert(pts_of(before)[k] == (before[k].0 as int, before[k].1 as int));
                } else {
                    assert(target[k] == pts_of(data@)[decim_index(k, n as int, max as int)]);
                }
            }
            assert(pts_of(out@) =~= target.take(i as int + 1));
        }
        i = i + 1;
    }
    proof {
        assert(target.take(max as int) =~= target);
    }
    out
}

/// A sum of at most `u64::MAX` many `i64`-bounded values fits in `i128`.
proof fn lemma_sum_in_i128(data: Seq<(int, int)>, from: int, to: int)
    requires
        0 <= from <= to <= data.len(),
        to - from <= u64::MAX as int,
        forall|j: int| 0 <= j < data.len() ==> i64::MIN <= #[trigger] data[j].1 <= i64::MAX,
    ensures
        (i128::MIN as int) < sum_vals(data, from, to) < (i128::MAX as int),
{
    lemma_sum_bounds(data, from, to);
    assert(sum_vals(data, from, to) >= (u64::MAX as int) * (i64::MIN as int)) by (nonlinear_arith)
        requires
            0 <= to - from <= u64::MAX as int,
            (to - from) * (i64::MIN as int) <= sum_vals(data, from, to),
    ;
    assert(sum_vals(data, from, to) <= (u64::MAX as int) * (i64::MAX as int)) by (nonlinear_arith)
        requires
            0 <= to - from <= u64::MAX as int,
            sum_vals(data, from, to) <= (to - from) * (i64::MAX as int),
    ;
    assert((u64::MAX as int) * (i64::MIN as int) > i128::MIN as int) by (nonlinear_arith);
    assert((u64::MAX as int) * (i64::MAX as int) < i128::MAX as int) by (nonlinear_arith);
}

/// The values a point vector holds are `i64`-bounded.
proof fn lemma_pts_bounded(data: Seq<(u32, i64)>)
    ensures
        forall|j: int|
            0 <= j < pts_of(data).len() ==> i64::MIN <= #[trigger] pts_of(data)[j].1 <= i64::MAX,
{
    assert forall|j: int|
        0 <= j < pts_of(data).len() implies i64::MIN <= #[trigger] pts_of(data)[j].1
        <= i64::MAX by {
        assert(pts_of(data)[j] == (data[j].0 as int, data[j].1 as int));
    }
}

/// Downsamples a series to the means of a sliding window, advanced one
/// position at a time with a running sum. The window size, when omitted,
/// is one original point per emitted point (at least one); emission stops
/// after `max_data_points` points (a thousand when omitted) or when the
/// window can no longer advance. A window larger than the series, a zero
/// window or a zero budget give an empty series.
pub fn moving_mean_points(
    data: &Vec<(u32, i64)>,
    window_size: Option<usize>,
    max_data_points: Option<usize>,
) -> (r: Vec<(u32, i64)>)
    ensures
        ({
            let max = match max_data_points {
                Option::Some(m) => m as int,
                Option::None => 1000int,
            };
            let ws = spec_window_size(data@.len() as int, window_size, max);
            pts_of(r@) == spec_moving_mean(pts_of(data@), ws, max)
        }),
{
    let max: usize = match max_data_points {
        Some(m) => m,
        None => 1000,
    };
    let n = data.len();
    if max == 0 {
        let r: Vec<(u32, i64)> = Vec::new();
        proof {
            assert(pts_of(r@) =~= Seq::<(int, int)>::empty());
        }
        return r;
    }
    let ws: usize = match window_size {
        Some(w) => w,
        None => if n < max {
            1
        } else {
            n / max
        },
    };
    if ws == 0 || n < ws {
        let r: Vec<(u32, i64)> = Vec::new();
        proof {
            assert(pts_of(r@) =~= Seq::<(int, int)>::empty());
        }
        return r;
    }
    let ghost d = pts_of(data@);
    let ghost target = spec_moving_mean(d, ws as int, max as int);
    let ghost count: int = if d.len() - ws + 1 < max {
        d.len() - ws + 1
    } else {
        max as int
    };
    proof {
        lemma_pts_bounded(data@);
        assert(target.len() == count);
    }
    let mut sum: i128 = 0;
    let mut j: usize = 0;
    while j < ws
        invariant
            j <= ws,
            1 <= ws <= n,
            n == data@.len(),
            d == pts_of(data@),
            forall|k: int| 0 <= k < d.len() ==> i64::MIN <= #[trigger] d[k].1 <= i64::MAX,
            sum == sum_vals(d, 0, j as int),
        decreases ws - j,
    {
        proof {
            lemma_sum_push(d, 0, j as int);
            assert(usize::MAX as int <= u64::MAX as int);
            lemma_sum_in_i128(d, 0, j as int + 1);
            assert(d[j as int] == (data@[j as int].0 as int, data@[j as int].1 as int));
        }
        sum = sum + data[j].1 as i128;
        j = j + 1;
    }
    let mut out: Vec<(u32, i64)> = Vec::new();
    let mut start: usize = 0;
    proof {
        assert(pts_of(out@) =~= target.take(0));
    }
    while start <= n - ws && out.len() < max
        invariant
            1 <= ws <= n,
            n == data@.len(),
            d == pts_of(data@),
            forall|k: int| 0 <= k < d.len() ==> i64::MIN <= #[trigger] d[k].1 <= i64::MAX,
            target == spec_moving_mean(d, ws as int, max as int),
            count == if d.len() - ws + 1 < max {
                d.len() - ws + 1
            } else {
                max as int
            },
            max >= 1,
            start as int <= count,
            out@.len() == start,
            pts_of(out@) == target.take(start as int),
            start as int + ws as int <= n as int ==> sum == sum_vals(
                d,
                start as int,
                start as int + ws as int,
            ),
        decreases n - start,
    {
        proof {
            lemma_sum_bounds(d, start as int, start as int + ws as int);
            assert(usize::MAX as int <= u64::MAX as int);
            lemma_sum_in_i128(d, start as int, start as int + ws as int);
            crate::arith::lemma_div_round_in_range(
                sum as int,
                ws as int,
                i64::MIN as int,
                i64::MAX as int,
            );
        }
        let x = data[start + ws / 2].0;
        let mean128 = div_round_i128(sum, ws as i128);
        let mean = mean128 as i64;
        let ghost before = out@;
        out.push((x, mean));
        proof {
            assert(start < count);
            assert forall|k: int| 0 <= k < start + 1 implies pts_of(out@)[k] == target.take(
                start as int + 1,
            )[k] by {
                assert(pts_of(out@)[k] == (out@[k].0 as int, out@[k].1 as int));
                if k < start {
                    assert(out@[k] == before[k]);
                    assert(pts_of(before)[k] == (before[k].0 as int, before[k].1 as int));
                } else {
                    assert(target[k] == (
                        d[k + (ws as int) / 2].0,
                        div_round(sum_vals(d, k, k + ws as int), ws as int),
                    ));
                    assert(d[k + (ws as int) / 2] == (
                        data@[k + (ws as int) / 2].0 as int,
                        data@[k + (ws as int) / 2].1 as int,
                    ));
                }
            }
            assert(pts_of(out@) =~= target.take(start as int + 1));
        }
        start = start + 1;
        if start <= n - ws {
            proof {
                assert(usize::MAX as int <= u64::MAX as int);
                assert(sum_vals(d, start as int - 1, start as int - 1 + ws as int) == d[start
                    as int - 1].1 + sum_vals(d, start as int, start as int - 1 + ws as int));
                lemma_sum_in_i128(d, start as int, start as int - 1 + ws as int);
                lemma_sum_push(d, start as int, start as int + ws as int - 1);
                lemma_sum_in_i128(d, start as int, start as int + ws as int);
                assert(d[start as int - 1] == (
                    data@[start as int - 1].0 as int,
                    data@[start as int - 1].1 as int,
                ));
                assert(d[start as int + ws as int - 1] == (
                    data@[start as int + ws as int - 1].0 as int,
                    data@[start as int + ws as int - 1].1 as int,
                ));
            }
            sum = sum - data[start - 1].1 as i128 + data[start + ws - 1].1 as i128;
        }
    }
    proof {
        assert(start as int == count);
        assert(target.take(count) =~= target);
    }
    out
}

/// Law: decimating a series longer than a budget of at least two yields
/// exactly the budgeted number of points, and the last original point is
/// always the last selected point. (The selection is a function of the
/// series and the budget alone, so equal inputs select equal points.)
pub proof fn lemma_fixed_intervals_keeps_last(data: Seq<(int, int)>, max: int)
    requires
        2 <= max < data.len(),
    ensures
        spec_fixed(data, max).len() == max,
        spec_fixed(data, max).last() == data.last(),
{
    let n = data.len() as int;
    let a = (max - 1) * (n - 1);
    let b = max - 1;
    assert(a == b * (n - 1) + 0) by (nonlinear_arith)
        requires
            a == (max - 1) * (n - 1),
            b == max - 1,
    ;
    vstd::arithmetic::div_mod::lemma_fundamental_div_mod_converse(a, b, n - 1, 0);
    crate::arith::lemma_div_round_rem(a, b);
    assert(decim_index(max - 1, n, max) == n - 1);
    assert(spec_fixed(data, max)[max - 1] == data[n - 1]);
}

/// Law: a moving mean emits at most the budgeted number of points, and
/// point `k` pairs the period at the middle of window `k` with the
/// rounded mean of that window's values.
pub proof fn lemma_moving_mean_shape(data: Seq<(int, int)>, ws: int, max: int)
    requires
        ws >= 1,
        max >= 0,
    ensures
        spec_moving_mean(data, ws, max).len() <= max,
        forall|k: int|
            0 <= k < spec_moving_mean(data, ws, max).len() ==> #[trigger] spec_moving_mean(
                data,
                ws,
                max,
            )[k] == (data[k + ws / 2].0, div_round(sum_vals(data, k, k + ws), ws)),
{
}

/// Extracts the series of a sink/label pair over the given intervals and
/// downsamples it as selected. The pair must pass the ten-interval probe.
pub fn get_time_series(
    intervals: &Vec<Interval>,
    sink_path: &str,
    label: &str,
    downsizing_method: DownsizingMethod,
) -> (r: Result<Vec<(u32, i64)>, EngineError>)
    ensures
        ({
            let ivs = ivs_of(intervals@);
            match r {
                Ok(v) => probe_sink_found(ivs, sink_path@) && probe_label_found(
                    ivs,
                    sink_path@,
                    label@,
                ) && pts_of(v@) == spec_downsampled(
                    spec_series(ivs, sink_path@, label@),
                    downsizing_method,
                ),
                Err(e) => if !probe_sink_found(ivs, sink_path@) {
                    (e matches EngineError::SinkNotFound { sink: s } && s@ == sink_path@)
                } else {
                    !probe_label_found(ivs, sink_path@, label@) && (e
                        matches EngineError::LabelNotFound { label: l } && l@ == label@)
                },
            }
        }),
{
    match inspect_path_for_labels(intervals, sink_path, label) {
        Err(e) => {
            return Err(e);
        },
        Ok(u) => {},
    }
    let ghost ivs = ivs_of(intervals@);
    let ghost series = spec_series(ivs, sink_path@, label@);
    let mut raw: Vec<(u32, i64)> = Vec::new();
    let mut i: usize = 0;
    proof {
        assert(pts_of(raw@) =~= series.take(0));
    }
    while i < intervals.len()
        invariant
            i <= intervals@.len(),
            raw@.len() == i,
            ivs == ivs_of(intervals@),
            series == spec_series(ivs, sink_path@, label@),
            pts_of(raw@) == series.take(i as int),
        decreases intervals@.len() - i,
    {
        let pt = interval_to_time_series(&intervals[i], sink_path, label);
        let ghost before = raw@;
        raw.push(pt);
        proof {
            assert forall|k: int| 0 <= k < i + 1 implies pts_of(raw@)[k] == series.take(
                i as int + 1,
            )[k] by {
                assert(pts_of(raw@)[k] == (raw@[k].0 as int, raw@[k].1 as int));
                if k < i {
                    assert(raw@[k] == before[k]);
                    assert(pts_of(before)[k] == (before[k].0 as int, before[k].1 as int));
                } else {
                    assert(series[k] == spec_point(ivs[k], sink_path@, label@));
                    assert(ivs[k] == intervals@[k]@);
                }
            }
            assert(pts_of(raw@) =~= series.take(i as int + 1));
        }
        i = i + 1;
    }
    proof {
        assert(series.take(series.len() as int) =~= series);
    }
    match downsizing_method {
        DownsizingMethod::FixedIntervals { max_data_points } => Ok(
            fixed_intervals(&raw, max_data_points),
        ),
        DownsizingMethod::MovingMean { window_size, max_data_points } => Ok(
            moving_mean_points(&raw, window_size, max_data_points),
        ),
        DownsizingMethod::NoDownsizing => Ok(raw),
    }
}

/// Answers a time-series query for a combined path: every segment but the
/// last, rejoined with the separator, names the sink; the last segment
/// names the label. A path of fewer than two segments is rejected.
pub fn interval_time_series(
    intervals: &Vec<Interval>,
    sink_path: &str,
    downsizing_method: DownsizingMethod,
) -> (r: Result<Vec<(u32, i64)>, EngineError>)
    ensures
        ({
            let parts = split_path(sink_path@);
            let ivs = ivs_of(intervals@);
            if parts.len() < 2 {
                r matches Err(e) && e is PathTooShort
            } else {
                let sink = join_segs(parts.take(parts.len() - 1));
                let label = parts.last();
                match r {
                    Ok(v) => probe_sink_found(ivs, sink) && probe_label_found(ivs, sink, label)
                        && pts_of(v@) == spec_downsampled(
                        spec_series(ivs, sink, label),
                        downsizing_method,
                    ),
                    Err(e) => if !probe_sink_found(ivs, sink) {
                        (e matches EngineError::SinkNotFound { sink: s } && s@ == sink)
                    } else {
                        !probe_label_found(ivs, sink, label) && (e
                            matches EngineError::LabelNotFound { label: l } && l@ == label)
                    },
                }
            }
        }),
{
    let parts = split_path_exec(sink_path);
    if parts.len() < 2 {
        return Err(EngineError::PathTooShort);
    }
    let label = &parts[parts.len() - 1];
    let sink = join_segs_exec(&parts, parts.len() - 1);
    proof {
        assert(seg_views(parts@).take(parts@.len() - 1) =~= seg_views(parts@.take(
            parts@.len() - 1,
        )));
        assert(seg_views(parts@)[parts@.len() - 1] == parts@[parts@.len() - 1]@);
    }
    get_time_series(intervals, sink.as_str(), label.as_str(), downsizing_method)
}

} // verus!
