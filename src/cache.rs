//! A bounded least-recently-used cache of account states, one per action.
use vstd::prelude::*;

use crate::types::ActionType;

verus! {

pub open spec fn keys_distinct<V>(s: Seq<(u64, V)>) -> bool {
    forall|i: int, k: int| 0 <= i < s.len() && 0 <= k < s.len() && i != k ==> #[trigger] s[i].0 != #[trigger] s[k].0
}

pub open spec fn has_key<V>(s: Seq<(u64, V)>, key: u64) -> bool {
    exists|i: int| 0 <= i < s.len() && #[trigger] s[i].0 == key
}

/// Entries ordered from least to most recently used.
pub struct LruCache<V> {
    entries: Vec<(u64, V)>,
    capacity: usize,
}

impl<V> LruCache<V> {
    pub closed spec fn entry_seq(&self) -> Seq<(u64, V)> {
        self.entries@
    }

    pub closed spec fn cap(&self) -> nat {
        self.capacity as nat
    }

    pub open spec fn wf(&self) -> bool {
        keys_distinct(self.entry_seq()) && self.entry_seq().len() <= self.cap()
    }

    pub fn new(capacity: usize) -> (r: Self)
        ensures
            r.wf(),
            r.cap() == capacity,
            r.entry_seq().len() == 0,
    {
        LruCache { entries: Vec::new(), capacity }
    }

    pub fn len(&self) -> (r: usize)
        ensures
            r == self.entry_seq().len(),
    {
        self.entries.len()
    }

    fn position(&self, key: u64) -> (r: Option<usize>)
        ensures
            r is None ==> !has_key(self.entries@, key),
            r matches Some(i) ==> i < self.entries@.len() && self.entries@[i as int].0 == key,
    {
        let mut i: usize = 0;
        while i < self.entries.len()
            invariant
                i <= self.entries@.len(),
                forall|k: int| 0 <= k < i ==> #[trigger] self.entries@[k].0 != key,
            decreases self.entries@.len() - i,
        {
            if self.entries[i].0 == key {
                return Some(i);
            }
            i += 1;
        }
        None
    }

    /// The value cached under `key`, which becomes the most recently used.
    pub fn get(&mut self, key: u64) -> (r: Option<&V>)
        requires
            old(self).wf(),
        ensures
            final(self).wf(),
            final(self).cap() == old(self).cap(),
            r is Some <==> has_key(old(self).entry_seq(), key),
            r is None ==> final(self).entry_seq() == old(self).entry_seq(),
            r matches Some(v) ==> exists|i: int|
                0 <= i < old(self).entry_seq().len() && #[trigger] old(self).entry_seq()[i].0 == key
                    && *v == old(self).entry_seq()[i].1 && final(self).entry_seq() == old(
                    self,
                ).entry_seq().remove(i).push(old(self).entry_seq()[i]),
    {
        match self.position(key) {
            None => None,
            Some(i) => {
                let ghost before = self.entries@;
                let e = self.entries.remove(i);
                self.entries.push(e);
                proof {
                    lemma_move_keeps_keys(before, i as int, before[i as int]);
                    assert(self.entry_seq() == before.remove(i as int).push(before[i as int]));
                }
                let last = self.entries.len() - 1;
                Some(&self.entries[last].1)
            },
        }
    }

    /// Caches `value` under `key` as the most recently used entry. A full
    /// cache first drops its least recently used entry; a cache of capacity 0
    /// keeps nothing.
    pub fn put(&mut self, key: u64, value: V)
        requires
            old(self).wf(),
        ensures
            final(self).wf(),
            final(self).cap() == old(self).cap(),
            old(self).cap() == 0 ==> final(self).entry_seq() == old(self).entry_seq(),
            old(self).cap() > 0 ==> {
                let s = old(self).entry_seq();
                if has_key(s, key) {
                    exists|i: int|
                        0 <= i < s.len() && #[trigger] s[i].0 == key && final(self).entry_seq() == s.remove(
                            i,
                        ).push((key, value))
                } else if s.len() < old(self).cap() {
                    final(self).entry_seq() == s.push((key, value))
                } else {
                    final(self).entry_seq() == s.remove(0).push((key, value))
                }
            },
    {
        if self.capacity == 0 {
            return;
        }
        let ghost before = self.entries@;
        match self.position(key) {
            Some(i) => {
                self.entries.remove(i);
                self.entries.push((key, value));
                proof {
                    lemma_move_keeps_keys(before, i as int, (key, value));
                }
            },
            None => {
                if self.entries.len() >= self.capacity {
                    self.entries.remove(0);
                    self.entries.push((key, value));
                    proof {
                        let s = before.remove(0);
                        assert forall|a: int, b: int| 0 <= a < self.entries@.len() && 0 <= b < self.entries@.len() && a != b
                            implies #[trigger] self.entries@[a].0 != #[trigger] self.entries@[b].0 by {
                            if a < s.len() {
                                assert(self.entries@[a] == before[a + 1]);
                            }
                            if b < s.len() {
                                assert(self.entries@[b] == before[b + 1]);
                            }
                        }
                    }
                } else {
                    self.entries.push((key, value));
                    proof {
                        assert forall|a: int, b: int| 0 <= a < self.entries@.len() && 0 <= b < self.entries@.len() && a != b
                            implies #[trigger] self.entries@[a].0 != #[trigger] self.entries@[b].0 by {
                            if a < before.len() {
                                assert(self.entries@[a] == before[a]);
                            }
                            if b < before.len() {
                                assert(self.entries@[b] == before[b]);
                            }
                        }
                    }
                }
            },
        }
    }
}

/// Moving entry `i` to the end under the same key keeps the keys distinct.
proof fn lemma_move_keeps_keys<V>(s: Seq<(u64, V)>, i: int, e: (u64, V))
    requires
        keys_distinct(s),
        0 <= i < s.len(),
        e.0 == s[i].0,
    ensures
        keys_distinct(s.remove(i).push(e)),
        s.remove(i).push(e).len() == s.len(),
{
    let t = s.remove(i).push(e);
    assert forall|a: int, b: int| 0 <= a < t.len() && 0 <= b < t.len() && a != b implies #[trigger] t[a].0
        != #[trigger] t[b].0 by {
        let a2 = if a == t.len() - 1 { i } else if a < i { a } else { a + 1 };
        let b2 = if b == t.len() - 1 { i } else if b < i { b } else { b + 1 };
        assert(t[a].0 == s[a2].0);
        assert(t[b].0 == s[b2].0);
    }
}

/// Account states cached per action, each action with its own bound.
pub struct AccountCache<V> {
    commit: LruCache<V>,
    verify: LruCache<V>,
}

impl<V> AccountCache<V> {
    /// The cache that holds states for `action`.
    pub closed spec fn for_action(&self, action: ActionType) -> LruCache<V> {
        match action {
            ActionType::Commit => self.commit,
            ActionType::Verify => self.verify,
        }
    }

    pub open spec fn wf(&self) -> bool {
        self.for_action(ActionType::Commit).wf() && self.for_action(ActionType::Verify).wf()
    }

    /// Two empty caches of `each_cache_size` entries.
    pub fn new(each_cache_size: usize) -> (r: Self)
        ensures
            r.wf(),
            r.for_action(ActionType::Commit).cap() == each_cache_size,
            r.for_action(ActionType::Verify).cap() == each_cache_size,
            r.for_action(ActionType::Commit).entry_seq().len() == 0,
            r.for_action(ActionType::Verify).entry_seq().len() == 0,
    {
        AccountCache { commit: LruCache::new(each_cache_size), verify: LruCache::new(each_cache_size) }
    }

    /// The state of `address` cached for `action`, marked most recently used.
    pub fn get(&mut self, address: u64, action: ActionType) -> (r: Option<&V>)
        requires
            old(self).wf(),
        ensures
            final(self).wf(),
            r is Some <==> has_key(old(self).for_action(action).entry_seq(), address),
            final(self).for_action(action).cap() == old(self).for_action(action).cap(),
            r is None ==> final(self).for_action(action).entry_seq() == old(self).for_action(action).entry_seq(),
            r matches Some(v) ==> exists|i: int|
                0 <= i < old(self).for_action(action).entry_seq().len()
                    && #[trigger] old(self).for_action(action).entry_seq()[i].0 == address
                    && *v == old(self).for_action(action).entry_seq()[i].1
                    && final(self).for_action(action).entry_seq() == old(self).for_action(action).entry_seq().remove(i).push(
                    old(self).for_action(action).entry_seq()[i],
                ),
            final(self).for_action(other_action(action)) == old(self).for_action(other_action(action)),
    {
        match action {
            ActionType::Commit => self.commit.get(address),
            ActionType::Verify => self.verify.get(address),
        }
    }

    /// Caches `state` for `address` under `action`.
    pub fn put(&mut self, address: u64, action: ActionType, state: V)
        requires
            old(self).wf(),
        ensures
            final(self).wf(),
            final(self).for_action(action).cap() == old(self).for_action(action).cap(),
            old(self).for_action(action).cap() == 0 ==> final(self).for_action(action).entry_seq() == old(self).for_action(action).entry_seq(),
            old(self).for_action(action).cap() > 0 ==> {
                let s = old(self).for_action(action).entry_seq();
                if has_key(s, address) {
                    exists|i: int|
                        0 <= i < s.len() && #[trigger] s[i].0 == address && final(self).for_action(action).entry_seq() == s.remove(
                            i,
                        ).push((address, state))
                } else if s.len() < old(self).for_action(action).cap() {
                    final(self).for_action(action).entry_seq() == s.push((address, state))
                } else {
                    final(self).for_action(action).entry_seq() == s.remove(0).push((address, state))
                }
            },
            final(self).for_action(other_action(action)) == old(self).for_action(other_action(action)),
    {
        match action {
            ActionType::Commit => self.commit.put(address, state),
            ActionType::Verify => self.verify.put(address, state),
        }
    }
}

pub open spec fn other_action(a: ActionType) -> ActionType {
    match a {
        ActionType::Commit => ActionType::Verify,
        ActionType::Verify => ActionType::Commit,
    }
}

} // verus!
