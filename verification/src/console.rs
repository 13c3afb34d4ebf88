//! The console message store: one record per `(message, level)` identity,
//! accumulating per-location occurrence counts.

use vstd::prelude::*;
use crate::arith::{sat_add_u64, sat_add_u64_exec};
use crate::entries::{Entry, entries_map, entry_get, entry_set, lemma_entries_map_dom,
    lemma_entries_map_push, lemma_entries_map_push_shadowed};
use crate::types::{ConsoleMessage, ConsoleMessageV};
use crate::manager::{TestInfoManager, RunV, cms_of, bumped, bump_state};
use crate::paths::str_eq;

verus! {

/// Two per-location count maps merged: counts for shared locations add
/// (saturating), locations of either side are kept.
pub open spec fn merged_counts(base: Map<Seq<char>, u64>, inc: Map<Seq<char>, u64>) -> Map<
    Seq<char>,
    u64,
> {
    Map::new(
        |k: Seq<char>| base.contains_key(k) || inc.contains_key(k),
        |k: Seq<char>|
            if inc.contains_key(k) {
                if base.contains_key(k) {
                    sat_add_u64(base[k] as int, inc[k] as int) as u64
                } else {
                    inc[k]
                }
            } else {
                base[k]
            },
    )
}

/// A console record after a second occurrence with the same identity:
/// counts merged, `last_occurred` overwritten, `first_occurred` kept.
pub open spec fn merged_message(existing: ConsoleMessageV, incoming: ConsoleMessageV)
    -> ConsoleMessageV {
    ConsoleMessageV {
        message: existing.message,
        level: existing.level,
        first_occurred: existing.first_occurred,
        last_occurred: incoming.last_occurred,
        count: merged_counts(existing.count, incoming.count),
    }
}

/// The store after one console event: the first record with the same
/// identity absorbs it, or the event starts a new record at the end.
pub open spec fn upsert_console(ms: Seq<ConsoleMessageV>, m: ConsoleMessageV) -> Seq<
    ConsoleMessageV,
>
    decreases ms.len(),
{
    if ms.len() == 0 {
        seq![m]
    } else if ms[0].message == m.message && ms[0].level == m.level {
        seq![merged_message(ms[0], m)] + ms.skip(1)
    } else {
        seq![ms[0]] + upsert_console(ms.skip(1), m)
    }
}

/// A first identity match at `i` absorbs the event in place.
pub proof fn lemma_upsert_console_at(ms: Seq<ConsoleMessageV>, m: ConsoleMessageV, i: int)
    requires
        0 <= i < ms.len(),
        ms[i].message == m.message && ms[i].level == m.level,
        forall|j: int| 0 <= j < i ==> !(ms[j].message == m.message && ms[j].level == m.level),
    ensures
        upsert_console(ms, m) =~= ms.update(i, merged_message(ms[i], m)),
    decreases ms.len(),
{
    if i > 0 {
        assert(ms.skip(1)[i - 1] == ms[i]);
        lemma_upsert_console_at(ms.skip(1), m, i - 1);
        assert(seq![ms[0]] + ms.skip(1).update(i - 1, merged_message(ms[i], m)) =~= ms.update(
            i,
            merged_message(ms[i], m),
        ));
    } else {
        assert(seq![merged_message(ms[0], m)] + ms.skip(1) =~= ms.update(
            0,
            merged_message(ms[0], m),
        ));
    }
}

/// Without an identity match the event starts a new record at the end.
pub proof fn lemma_upsert_console_none(ms: Seq<ConsoleMessageV>, m: ConsoleMessageV)
    requires
        forall|j: int| 0 <= j < ms.len() ==> !(ms[j].message == m.message && ms[j].level
            == m.level),
    ensures
        upsert_console(ms, m) =~= ms.push(m),
    decreases ms.len(),
{
    if ms.len() > 0 {
        lemma_upsert_console_none(ms.skip(1), m);
        assert(seq![ms[0]] + ms.skip(1).push(m) =~= ms.push(m));
    }
}

/// The run after one console event.
pub open spec fn apply_console_run(r: RunV, m: ConsoleMessageV) -> RunV {
    RunV {
        console_messages: upsert_console(r.console_messages, m),
        console_messages_state: bumped(r.console_messages_state),
        ..r
    }
}

/// Index of the first record sharing the event's identity, if any.
fn find_console_index(ms: &Vec<ConsoleMessage>, message: &str, level: &str) -> (r: Option<usize>)
    ensures
        match r {
            Some(i) => i < ms@.len() && ms@[i as int]@.message == message@
                && ms@[i as int]@.level == level@ && (forall|j: int|
                0 <= j < i ==> !(ms@[j]@.message == message@ && ms@[j]@.level == level@)),
            None => forall|j: int|
                0 <= j < ms@.len() ==> !(ms@[j]@.message == message@ && ms@[j]@.level == level@),
        },
{
    let mut i: usize = 0;
    while i < ms.len()
        invariant
            i <= ms@.len(),
            forall|j: int| 0 <= j < i ==> !(ms@[j]@.message == message@ && ms@[j]@.level
                == level@),
        decreases ms@.len() - i,
    {
        if str_eq(ms[i].message.as_str(), message) && str_eq(ms[i].level.as_str(), level) {
            return Some(i);
        }
        i = i + 1;
    }
    None
}

/// Merges the incoming per-location counts into `counts`; an incoming
/// entry shadowed by an earlier incoming entry of the same location does
/// not count again.
fn merge_count_entries(counts: &mut Vec<Entry<u64>>, incoming: &Vec<Entry<u64>>)
    ensures
        entries_map(final(counts)@) == merged_counts(
            entries_map(old(counts)@),
            entries_map(incoming@),
        ),
{
    let ghost base0 = entries_map(old(counts)@);
    let mut k: usize = 0;
    proof {
        assert(incoming@.take(0) =~= Seq::<Entry<u64>>::empty());
        assert(entries_map(counts@) =~= merged_counts(base0, entries_map(incoming@.take(0))));
    }
    while k < incoming.len()
        invariant
            k <= incoming@.len(),
            entries_map(counts@) == merged_counts(base0, entries_map(incoming@.take(k as int))),
        decreases incoming@.len() - k,
    {
        let ghost pre = entries_map(counts@);
        let ghost prefix = incoming@.take(k as int);
        let e = &incoming[k];
        let shadowed = shadowed_in_prefix(incoming, k);
        proof {
            lemma_entries_map_dom(prefix, e.name@);
            assert(incoming@.take(k as int + 1) =~= prefix.push(incoming@[k as int]));
        }
        if !shadowed {
            let add = match entry_get(counts, e.name.as_str()) {
                Some(v) => sat_add_u64_exec(v, e.value),
                None => e.value,
            };
            entry_set(counts, e.name.as_str(), add);
            proof {
                lemma_entries_map_push(prefix, incoming@[k as int]);
                assert(entries_map(counts@) =~= merged_counts(
                    base0,
                    entries_map(incoming@.take(k as int + 1)),
                ));
            }
        } else {
            proof {
                lemma_entries_map_push_shadowed(prefix, incoming@[k as int]);
                assert(entries_map(counts@) =~= merged_counts(
                    base0,
                    entries_map(incoming@.take(k as int + 1)),
                ));
            }
        }
        k = k + 1;
    }
    proof {
        assert(incoming@.take(incoming@.len() as int) =~= incoming@);
    }
}

/// Whether an earlier entry of the list carries the same name as entry `k`.
fn shadowed_in_prefix(entries: &Vec<Entry<u64>>, k: usize) -> (r: bool)
    requires
        k < entries@.len(),
    ensures
        r == entries_map(entries@.take(k as int)).contains_key(entries@[k as int].name@),
{
    proof {
        lemma_entries_map_dom(entries@.take(k as int), entries@[k as int].name@);
    }
    let mut j: usize = 0;
    while j < k
        invariant
            j <= k < entries@.len(),
            forall|x: int| 0 <= x < j ==> entries@[x].name@ != entries@[k as int].name@,
        decreases k - j,
    {
        if str_eq(entries[j].name.as_str(), entries[k].name.as_str()) {
            proof {
                assert(entries@.take(k as int)[j as int].name@ == entries@[k as int].name@);
                lemma_entries_map_dom(entries@.take(k as int), entries@[k as int].name@);
            }
            return true;
        }
        j = j + 1;
    }
    proof {
        assert forall|x: int| 0 <= x < k implies entries@.take(k as int)[x].name@
            != entries@[k as int].name@ by {
            assert(entries@.take(k as int)[x] == entries@[x]);
        }
    }
    false
}

impl TestInfoManager {
    /// Ingests one console event: an existing record with the same
    /// `(message, level)` merges its per-location counts and advances
    /// `last_occurred`, keeping its `first_occurred`; otherwise the event
    /// is stored as a new record.
    pub fn process_console_message(&mut self, new_message: ConsoleMessage)
        requires
            old(self).wf(),
        ensures
            final(self).wf(),
            final(self)@ == apply_console_run(old(self)@, new_message@),
    {
        let ghost ms0 = cms_of(self.console_messages@);
        let ghost mv = new_message@;
        let found = find_console_index(
            &self.console_messages,
            new_message.message.as_str(),
            new_message.level.as_str(),
        );
        match found {
            Some(i) => {
                proof {
                    assert(ms0[i as int] == self.console_messages@[i as int]@);
                    assert forall|j: int|
                        0 <= j < i implies !(ms0[j].message == mv.message && ms0[j].level
                        == mv.level) by {
                        assert(ms0[j] == self.console_messages@[j]@);
                    }
                    lemma_upsert_console_at(ms0, mv, i as int);
                }
                let ghost kept = self.console_messages@;
                let mut rec = self.console_messages.remove(i);
                rec.last_occurred = new_message.last_occurred;
                merge_count_entries(&mut rec.count, &new_message.count);
                proof {
                    assert(rec@ == merged_message(ms0[i as int], mv));
                }
                self.console_messages.insert(i, rec);
                self.console_messages_state = bump_state(self.console_messages_state);
                proof {
                    assert(self.console_messages@ =~= kept.update(i as int, self.console_messages@[i as int]));
                    assert(cms_of(self.console_messages@) =~= ms0.update(
                        i as int,
                        merged_message(ms0[i as int], mv),
                    ));
                    assert(self@ =~= apply_console_run(old(self)@, mv));
                    assert forall|a: int, b: int|
                        0 <= a < b < self.console_messages@.len() implies !(self.console_messages@[a]@.message
                        == self.console_messages@[b]@.message && self.console_messages@[a]@.level
                        == self.console_messages@[b]@.level) by {
                        assert(old(self).console_messages@[a]@.message == self.console_messages@[a]@.message
                            || (a == i && self.console_messages@[a]@.message == ms0[i as int].message));
                        assert(cms_of(self.console_messages@)[a] == self.console_messages@[a]@);
                        assert(cms_of(self.console_messages@)[b] == self.console_messages@[b]@);
                        assert(ms0[a] == old(self).console_messages@[a]@);
                        assert(ms0[b] == old(self).console_messages@[b]@);
                    }
                }
            },
            None => {
                proof {
                    assert forall|j: int|
                        0 <= j < ms0.len() implies !(ms0[j].message == mv.message && ms0[j].level
                        == mv.level) by {
                        assert(ms0[j] == self.console_messages@[j]@);
                    }
                    lemma_upsert_console_none(ms0, mv);
                }
                let ghost kept = self.console_messages@;
                self.console_messages.push(new_message);
                self.console_messages_state = bump_state(self.console_messages_state);
                proof {
                    assert(cms_of(self.console_messages@) =~= ms0.push(mv));
                    assert(self@ =~= apply_console_run(old(self)@, mv));
                    assert forall|a: int, b: int|
                        0 <= a < b < self.console_messages@.len() implies !(self.console_messages@[a]@.message
                        == self.console_messages@[b]@.message && self.console_messages@[a]@.level
                        == self.console_messages@[b]@.level) by {
                        if b + 1 == self.console_messages@.len() {
                            assert(self.console_messages@[a] == kept[a]);
                            assert(ms0[a] == kept[a]@);
                            assert(self.console_messages@[b]@ == mv);
                        } else {
                            assert(self.console_messages@[a] == kept[a]);
                            assert(self.console_messages@[b] == kept[b]);
                            assert(ms0[a] == kept[a]@);
                            assert(ms0[b] == kept[b]@);
                        }
                    }
                }
            },
        }
    }
}

} // verus!
