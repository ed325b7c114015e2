//! Index of state snapshots by the id of the action that produced them.
//!
//! A snapshot is an opaque byte string; the id is the monotonically growing
//! action counter. Besides exact lookup the index answers "the latest snapshot
//! at or before this id", which replay uses to find a starting point.

use vstd::prelude::*;

verus! {

/// Failure of the snapshot store.
#[derive(Debug, Clone, PartialEq)]
pub struct StorageError {
    pub reason: String,
}

/// Value bound to a key in an entry list; the latest entry wins.
pub open spec fn entry_get(s: Seq<(u64, Vec<u8>)>, key: u64) -> Option<Seq<u8>>
    decreases s.len(),
{
    if s.len() == 0 {
        None
    } else if s.last().0 == key {
        Some(s.last().1@)
    } else {
        entry_get(s.drop_last(), key)
    }
}

/// The largest key at or below `bound` that the entry list binds.
pub open spec fn closest_key_before(s: Seq<(u64, Vec<u8>)>, bound: u64) -> Option<u64>
    decreases s.len(),
{
    if s.len() == 0 {
        None
    } else {
        let rest = closest_key_before(s.drop_last(), bound);
        if s.last().0 <= bound && (match rest {
            Some(k) => s.last().0 >= k,
            None => true,
        }) {
            Some(s.last().0)
        } else {
            rest
        }
    }
}

/// The closest key is itself at or below the bound.
proof fn lemma_closest_key_at_or_below(s: Seq<(u64, Vec<u8>)>, bound: u64)
    ensures
        closest_key_before(s, bound) matches Some(k) ==> k <= bound,
    decreases s.len(),
{
    if s.len() > 0 {
        lemma_closest_key_at_or_below(s.drop_last(), bound);
    }
}

/// The closest key is what its name says: a bound key at or below the
/// bound with no bound key between it and the bound; when it is absent, no
/// key at or below the bound is bound at all.
proof fn lemma_closest_key_meaning(s: Seq<(u64, Vec<u8>)>, bound: u64)
    ensures
        match closest_key_before(s, bound) {
            Some(k) => k <= bound && entry_get(s, k) is Some && (forall|k2: u64|
                k < k2 <= bound ==> #[trigger] entry_get(s, k2) is None),
            None => forall|k2: u64| k2 <= bound ==> #[trigger] entry_get(s, k2) is None,
        },
    decreases s.len(),
{
    lemma_closest_key_at_or_below(s, bound);
    if s.len() == 0 {
        assert forall|k2: u64| k2 <= bound implies #[trigger] entry_get(s, k2) is None by {}
    } else {
        let rest = s.drop_last();
        lemma_closest_key_meaning(rest, bound);
        lemma_closest_key_at_or_below(rest, bound);
        let key = s.last().0;
        match closest_key_before(s, bound) {
            Some(k) => {
                assert forall|k2: u64| k < k2 <= bound implies #[trigger] entry_get(s, k2)
                    is None by {
                    assert(entry_get(rest, k2) is None);
                }
            },
            None => {
                assert forall|k2: u64| k2 <= bound implies #[trigger] entry_get(s, k2) is None by {
                    assert(entry_get(rest, k2) is None);
                }
            },
        }
    }
}

/// Storage for automaton state snapshots, indexed by the id of the action
/// that last modified the state.
#[derive(Debug, Clone)]
pub struct ShellAutomatonStateStorage {
    entries: Vec<(u64, Vec<u8>)>,
}

impl ShellAutomatonStateStorage {
    /// The snapshot bound to `key`.
    pub closed spec fn map_get(self, key: u64) -> Option<Seq<u8>> {
        entry_get(self.entries@, key)
    }

    /// The largest bound key at or below `bound`.
    pub closed spec fn spec_closest_key(self, bound: u64) -> Option<u64> {
        closest_key_before(self.entries@, bound)
    }

    /// An empty index.
    pub fn new() -> (r: Self)
        ensures
            forall|k: u64| #[trigger] r.map_get(k) is None,
            forall|b: u64| #[trigger] r.spec_closest_key(b) is None,
    {
        ShellAutomatonStateStorage { entries: Vec::new() }
    }

    /// A bound key at or below `bound` exists exactly when `spec_closest_key`
    /// answers, and its answer is the largest such key.
    pub proof fn lemma_closest_key_is_largest(self, bound: u64)
        ensures
            match self.spec_closest_key(bound) {
                Some(k) => k <= bound && self.map_get(k) is Some && (forall|k2: u64|
                    k < k2 <= bound ==> #[trigger] self.map_get(k2) is None),
                None => forall|k2: u64| k2 <= bound ==> #[trigger] self.map_get(k2) is None,
            },
    {
        lemma_closest_key_meaning(self.entries@, bound);
    }

    /// Bind `action_id` to a snapshot, shadowing any earlier one. The
    /// closest-key index follows: the new key takes over every bound it
    /// fits under and is not beaten at.
    pub fn put(&mut self, action_id: &u64, state_snapshot: &[u8]) -> (r: Result<(), StorageError>)
        ensures
            r is Ok,
            final(self).map_get(*action_id) == Some(state_snapshot@),
            forall|k: u64|
                k != *action_id ==> #[trigger] final(self).map_get(k) == old(self).map_get(k),
            forall|b: u64|
                #[trigger] final(self).spec_closest_key(b) == (if *action_id <= b && (
                match old(self).spec_closest_key(b) {
                    Some(k) => *action_id >= k,
                    None => true,
                }) {
                    Some(*action_id)
                } else {
                    old(self).spec_closest_key(b)
                }),
    {
        let mut v: Vec<u8> = Vec::new();
        let mut i: usize = 0;
        while i < state_snapshot.len()
            invariant
                0 <= i <= state_snapshot@.len(),
                v@ == state_snapshot@.take(i as int),
            decreases state_snapshot@.len() - i,
        {
            v.push(state_snapshot[i]);
            proof {
                assert(v@ =~= state_snapshot@.take(i + 1));
            }
            i = i + 1;
        }
        proof {
            assert(state_snapshot@.take(state_snapshot@.len() as int) =~= state_snapshot@);
        }
        self.entries.push((*action_id, v));
        proof {
            assert(self.entries@.last().0 == *action_id);
            assert(self.entries@.drop_last() =~= old(self).entries@);
        }
        Ok(())
    }

    /// The snapshot bound to exactly `action_id`.
    pub fn get(&self, action_id: &u64) -> (r: Result<Option<&Vec<u8>>, StorageError>)
        ensures
            r matches Ok(o) && (match o {
                Some(v) => self.map_get(*action_id) == Some(v@),
                None => self.map_get(*action_id) is None,
            }),
    {
        let mut i: usize = self.entries.len();
        proof {
            assert(self.entries@.take(self.entries@.len() as int) =~= self.entries@);
        }
        while i > 0
            invariant
                0 <= i <= self.entries@.len(),
                entry_get(self.entries@, *action_id) == entry_get(
                    self.entries@.take(i as int),
                    *action_id,
                ),
            decreases i,
        {
            i = i - 1;
            proof {
                assert(self.entries@.take(i + 1).drop_last() =~= self.entries@.take(i as int));
                assert(self.entries@.take(i + 1).last() == self.entries@[i as int]);
            }
            if self.entries[i].0 == *action_id {
                return Ok(Some(&self.entries[i].1));
            }
        }
        Ok(None)
    }

    /// The latest snapshot whose id is at or below `action_id`.
    pub fn get_closest_before(&self, action_id: &u64) -> (r: Result<
        Option<&Vec<u8>>,
        StorageError,
    >)
        ensures
            r matches Ok(o) && (match self.spec_closest_key(*action_id) {
                Some(k) => o matches Some(v) && self.map_get(k) == Some(v@),
                None => o is None,
            }),
    {
        let mut best: Option<usize> = None;
        let mut i: usize = 0;
        while i < self.entries.len()
            invariant
                0 <= i <= self.entries@.len(),
                match closest_key_before(self.entries@.take(i as int), *action_id) {
                    Some(k) => best matches Some(b) && b < i && self.entries@[b as int].0 == k
                        && entry_get(self.entries@.take(i as int), k) == Some(
                        self.entries@[b as int].1@,
                    ),
                    None => best is None,
                },
            decreases self.entries@.len() - i,
        {
            proof {
                assert(self.entries@.take(i + 1).drop_last() =~= self.entries@.take(i as int));
                assert(self.entries@.take(i + 1).last() == self.entries@[i as int]);
            }
            let ghost p = self.entries@.take(i as int);
            let ghost q = self.entries@.take(i + 1);
            let key = self.entries[i].0;
            if key <= *action_id {
                let replace: bool = match best {
                    Some(b) => key >= self.entries[b].0,
                    None => true,
                };
                if replace {
                    best = Some(i);
                    proof {
                        assert(closest_key_before(q, *action_id) == Some(key));
                        assert(entry_get(q, key) == Some(self.entries@[i as int].1@));
                    }
                } else {
                    proof {
                        let k = closest_key_before(p, *action_id).unwrap();
                        assert(key < k);
                        assert(closest_key_before(q, *action_id) == Some(k));
                        assert(entry_get(q, k) == entry_get(p, k));
                    }
                }
            } else {
                proof {
                    lemma_closest_key_at_or_below(p, *action_id);
                    match closest_key_before(p, *action_id) {
                        Some(k) => {
                            assert(k <= *action_id);
                            assert(closest_key_before(q, *action_id) == Some(k));
                            assert(entry_get(q, k) == entry_get(p, k));
                        },
                        None => {
                            assert(closest_key_before(q, *action_id) is None);
                        },
                    }
                }
            }
            i = i + 1;
        }
        proof {
            assert(self.entries@.take(self.entries@.len() as int) =~= self.entries@);
        }
        match best {
            Some(b) => Ok(Some(&self.entries[b].1)),
            None => Ok(None),
        }
    }
}

} // verus!
