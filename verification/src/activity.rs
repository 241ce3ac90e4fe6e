//! The activity loop's decisions: which circuits to materialise when the
//! throughput tracker reports traffic, and which to prune when they have
//! been idle past a threshold. The loop itself — receiving commands and
//! running `tc` — lives with the caller; everything decided here is a pure
//! function of the tracked state and the event.

use vstd::prelude::*;
use std::collections::HashSet;

verus! {

broadcast use vstd::std_specs::hash::group_hash_axioms;

/// How much of a circuit exists in the kernel.
#[derive(Debug, Clone, Copy, PartialEq, Eq, Structural)]
pub enum MaterializationState {
    /// Intended but not materialised at all.
    Virtual,
    /// HTB classes exist; SQM leaves do not.
    HtbOnly,
    /// HTB classes and SQM leaves exist.
    Full,
}

/// One tracked circuit.
#[derive(Debug, Clone, Copy, PartialEq, Eq, Structural)]
pub struct ActivityEntry {
    /// The circuit's hash.
    pub circuit_hash: i64,
    /// How much of it is materialised.
    pub state: MaterializationState,
    /// The tick it last showed traffic.
    pub last_seen_tick: u64,
}

/// What one activity report does to one entry: a circuit in the active set
/// becomes fully materialised and freshly seen; the rest are untouched.
pub open spec fn spec_activated(e: ActivityEntry, ids: Set<i64>, now: u64) -> ActivityEntry {
    if ids.contains(e.circuit_hash) {
        ActivityEntry {
            circuit_hash: e.circuit_hash,
            state: MaterializationState::Full,
            last_seen_tick: now,
        }
    } else {
        e
    }
}

/// The circuits an activity report wakes: those in the active set that are
/// not yet fully materialised, in tracking order.
pub open spec fn spec_to_wake(entries: Seq<ActivityEntry>, ids: Set<i64>) -> Seq<i64>
    decreases entries.len(),
{
    if entries.len() == 0 {
        Seq::<i64>::empty()
    } else {
        (if ids.contains(entries[0].circuit_hash) && entries[0].state
            != MaterializationState::Full {
            seq![entries[0].circuit_hash]
        } else {
            Seq::<i64>::empty()
        }) + spec_to_wake(entries.drop_first(), ids)
    }
}

/// The circuits a tick finds idle: materialised ones whose last traffic
/// lies more than `threshold` ticks before `now`, in tracking order.
pub open spec fn spec_idle(entries: Seq<ActivityEntry>, now: u64, threshold: u64) -> Seq<i64>
    decreases entries.len(),
{
    if entries.len() == 0 {
        Seq::<i64>::empty()
    } else {
        (if entries[0].state != MaterializationState::Virtual && entries[0].last_seen_tick
            + threshold < now {
            seq![entries[0].circuit_hash]
        } else {
            Seq::<i64>::empty()
        }) + spec_idle(entries.drop_first(), now, threshold)
    }
}

/// Whether some entry tracks circuit hash `h`.
pub open spec fn spec_tracks(entries: Seq<ActivityEntry>, h: i64) -> bool {
    exists|i: int| 0 <= i < entries.len() && entries[i].circuit_hash == h
}

proof fn lemma_to_wake_snoc(entries: Seq<ActivityEntry>, x: ActivityEntry, ids: Set<i64>)
    ensures
        spec_to_wake(entries.push(x), ids) == spec_to_wake(entries, ids) + (if ids.contains(
            x.circuit_hash,
        ) && x.state != MaterializationState::Full {
            seq![x.circuit_hash]
        } else {
            Seq::<i64>::empty()
        }),
    decreases entries.len(),
{
    let s = entries.push(x);
    let tail = if ids.contains(x.circuit_hash) && x.state != MaterializationState::Full {
        seq![x.circuit_hash]
    } else {
        Seq::<i64>::empty()
    };
    if entries.len() == 0 {
        assert(s.drop_first() =~= Seq::<ActivityEntry>::empty());
        assert(s[0] == x);
        assert(spec_to_wake(Seq::<ActivityEntry>::empty(), ids) == Seq::<i64>::empty());
        assert(spec_to_wake(s, ids) =~= spec_to_wake(entries, ids) + tail);
    } else {
        assert(s[0] == entries[0]);
        assert(s.drop_first() =~= entries.drop_first().push(x));
        lemma_to_wake_snoc(entries.drop_first(), x, ids);
        assert(spec_to_wake(s, ids) =~= spec_to_wake(entries, ids) + tail);
    }
}

proof fn lemma_idle_snoc(entries: Seq<ActivityEntry>, x: ActivityEntry, now: u64, threshold: u64)
    ensures
        spec_idle(entries.push(x), now, threshold) == spec_idle(entries, now, threshold) + (if x.state
            != MaterializationState::Virtual && x.last_seen_tick + threshold < now {
            seq![x.circuit_hash]
        } else {
            Seq::<i64>::empty()
        }),
    decreases entries.len(),
{
    let s = entries.push(x);
    let tail = if x.state != MaterializationState::Virtual && x.last_seen_tick + threshold < now {
        seq![x.circuit_hash]
    } else {
        Seq::<i64>::empty()
    };
    if entries.len() == 0 {
        assert(s.drop_first() =~= Seq::<ActivityEntry>::empty());
        assert(s[0] == x);
        assert(spec_idle(Seq::<ActivityEntry>::empty(), now, threshold) == Seq::<i64>::empty());
        assert(spec_idle(s, now, threshold) =~= spec_idle(entries, now, threshold) + tail);
    } else {
        assert(s[0] == entries[0]);
        assert(s.drop_first() =~= entries.drop_first().push(x));
        lemma_idle_snoc(entries.drop_first(), x, now, threshold);
        assert(spec_idle(s, now, threshold) =~= spec_idle(entries, now, threshold) + tail);
    }
}

/// Tracks every intended circuit's materialisation state and the last tick
/// it showed traffic.
pub struct ActivityTracker {
    entries: Vec<ActivityEntry>,
}

impl ActivityTracker {
    /// The tracked entries, in tracking order.
    pub closed spec fn spec_entries(&self) -> Seq<ActivityEntry> {
        self.entries@
    }

    /// Each circuit is tracked at most once.
    pub closed spec fn wf(&self) -> bool {
        forall|i: int, j: int|
            0 <= i < j < self.entries@.len() ==> (#[trigger] self.entries@[i]).circuit_hash != (
            #[trigger] self.entries@[j]).circuit_hash
    }

    /// An empty tracker.
    pub fn new() -> (r: ActivityTracker)
        ensures
            r.wf(),
            r.spec_entries().len() == 0,
    {
        ActivityTracker { entries: Vec::new() }
    }

    /// Start tracking a circuit in the given state. A circuit already
    /// tracked is left as it is.
    #[verifier::loop_isolation(false)]
    pub fn track(&mut self, circuit_hash: i64, state: MaterializationState) -> (added: bool)
        requires
            old(self).wf(),
        ensures
            final(self).wf(),
            added == !spec_tracks(old(self).spec_entries(), circuit_hash),
            added ==> final(self).spec_entries() == old(self).spec_entries().push(
                ActivityEntry { circuit_hash, state, last_seen_tick: 0 },
            ),
            !added ==> final(self).spec_entries() == old(self).spec_entries(),
    {
        let mut i: usize = 0;
        while i < self.entries.len()
            invariant
                i <= self.entries@.len(),
                forall|k: int|
                    0 <= k < i ==> (#[trigger] self.entries@[k]).circuit_hash != circuit_hash,
                self.entries@ == old(self).entries@,
            decreases self.entries@.len() - i,
        {
            if self.entries[i].circuit_hash == circuit_hash {
                return false;
            }
            i = i + 1;
        }
        proof {
            assert(!spec_tracks(self.entries@, circuit_hash));
        }
        self.entries.push(ActivityEntry { circuit_hash, state, last_seen_tick: 0 });
        true
    }

    /// Apply an activity report: every tracked circuit in the active set
    /// becomes fully materialised with its last-seen tick set to `now`, and
    /// the ones that were not yet fully materialised come back, in
    /// tracking order, for the caller to encode as live updates.
    #[verifier::loop_isolation(false)]
    pub fn on_activity(&mut self, ids: &HashSet<i64>, now: u64) -> (woken: Vec<i64>)
        requires
            old(self).wf(),
        ensures
            final(self).wf(),
            final(self).spec_entries().len() == old(self).spec_entries().len(),
            forall|i: int|
                0 <= i < old(self).spec_entries().len() ==> final(self).spec_entries()[i]
                    == spec_activated(#[trigger] old(self).spec_entries()[i], ids@, now),
            woken@ == spec_to_wake(old(self).spec_entries(), ids@),
    {
        let ghost entries0 = self.entries@;
        let mut woken: Vec<i64> = Vec::new();
        let mut i: usize = 0;
        proof {
            assert(entries0.take(0) =~= Seq::<ActivityEntry>::empty());
        }
        while i < self.entries.len()
            invariant
                i <= entries0.len(),
                self.entries@.len() == entries0.len(),
                forall|k: int|
                    0 <= k < i ==> self.entries@[k] == spec_activated(
                        #[trigger] entries0[k],
                        ids@,
                        now,
                    ),
                forall|k: int| i <= k < entries0.len() ==> self.entries@[k] == entries0[k],
                woken@ == spec_to_wake(entries0.take(i as int), ids@),
            decreases entries0.len() - i,
        {
            proof {
                lemma_to_wake_snoc(entries0.take(i as int), entries0[i as int], ids@, );
                assert(entries0.take(i + 1) =~= entries0.take(i as int).push(entries0[i as int]));
            }
            let hash = self.entries[i].circuit_hash;
            if ids.contains(&hash) {
                let was_full = self.entries[i].state == MaterializationState::Full;
                if !was_full {
                    woken.push(hash);
                }
                let updated = ActivityEntry {
                    circuit_hash: hash,
                    state: MaterializationState::Full,
                    last_seen_tick: now,
                };
                self.entries.set(i, updated);
            }
            i = i + 1;
        }
        proof {
            assert(entries0.take(entries0.len() as int) =~= entries0);
            assert forall|a: int, b: int|
                0 <= a < b < self.entries@.len() implies (#[trigger] self.entries@[a]).circuit_hash
                != (#[trigger] self.entries@[b]).circuit_hash by {
                assert(self.entries@[a].circuit_hash == entries0[a].circuit_hash);
                assert(self.entries@[b].circuit_hash == entries0[b].circuit_hash);
            }
        }
        woken
    }

    /// The circuits a tick at `now` finds idle — materialised, with no
    /// traffic for more than `threshold` ticks — in tracking order, for
    /// the caller to prune.
    #[verifier::loop_isolation(false)]
    pub fn idle_circuits(&self, now: u64, threshold: u64) -> (idle: Vec<i64>)
        ensures
            idle@ == spec_idle(self.spec_entries(), now, threshold),
    {
        let ghost entries0 = self.entries@;
        let mut idle: Vec<i64> = Vec::new();
        let mut i: usize = 0;
        proof {
            assert(entries0.take(0) =~= Seq::<ActivityEntry>::empty());
        }
        while i < self.entries.len()
            invariant
                i <= entries0.len(),
                self.entries@ == entries0,
                idle@ == spec_idle(entries0.take(i as int), now, threshold),
            decreases entries0.len() - i,
        {
            proof {
                lemma_idle_snoc(entries0.take(i as int), entries0[i as int], now, threshold);
                assert(entries0.take(i + 1) =~= entries0.take(i as int).push(entries0[i as int]));
            }
            let e = self.entries[i];
            let is_idle = e.state != MaterializationState::Virtual && threshold < now
                && e.last_seen_tick < now - threshold;
            if is_idle {
                idle.push(e.circuit_hash);
            }
            i = i + 1;
        }
        proof {
            assert(entries0.take(entries0.len() as int) =~= entries0);
        }
        idle
    }

    /// Record the state a circuit was left in (after a prune or a failed
    /// materialisation). Returns false when the circuit is not tracked.
    #[verifier::loop_isolation(false)]
    pub fn set_state(&mut self, circuit_hash: i64, state: MaterializationState) -> (found: bool)
        requires
            old(self).wf(),
        ensures
            final(self).wf(),
            found == spec_tracks(old(self).spec_entries(), circuit_hash),
            final(self).spec_entries().len() == old(self).spec_entries().len(),
            forall|i: int|
                0 <= i < old(self).spec_entries().len()
                    ==> (#[trigger] final(self).spec_entries()[i])
                    == (if old(self).spec_entries()[i].circuit_hash == circuit_hash {
                    ActivityEntry {
                        circuit_hash,
                        state,
                        last_seen_tick: old(self).spec_entries()[i].last_seen_tick,
                    }
                } else {
                    old(self).spec_entries()[i]
                }),
    {
        let ghost entries0 = self.entries@;
        let mut i: usize = 0;
        while i < self.entries.len()
            invariant
                i <= entries0.len(),
                self.entries@ == entries0,
                forall|k: int|
                    0 <= k < i ==> (#[trigger] entries0[k]).circuit_hash != circuit_hash,
            decreases entries0.len() - i,
        {
            if self.entries[i].circuit_hash == circuit_hash {
                let updated = ActivityEntry {
                    circuit_hash,
                    state,
                    last_seen_tick: self.entries[i].last_seen_tick,
                };
                self.entries.set(i, updated);
                proof {
                    assert(spec_tracks(entries0, circuit_hash));
                    assert forall|k: int|
                        0 <= k < entries0.len() implies (#[trigger] self.entries@[k]) == (
                    if entries0[k].circuit_hash == circuit_hash {
                        ActivityEntry {
                            circuit_hash,
                            state,
                            last_seen_tick: entries0[k].last_seen_tick,
                        }
                    } else {
                        entries0[k]
                    }) by {
                        if k != i as int {
                            assert(self.entries@[k] == entries0[k]);
                        }
                    }
                }
                return true;
            }
            i = i + 1;
        }
        proof {
            assert(!spec_tracks(entries0, circuit_hash));
        }
        false
    }
}

} // verus!
