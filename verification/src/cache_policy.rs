//! A bounded map whose entries expire: the policy behind every in-memory cache.
//!
//! When a new key arrives at a full map, every expired entry is dropped, and if that frees no
//! room, the single oldest entry. Times are milliseconds of a monotonic clock that the caller
//! reads.

use crate::index::{copy_key, KeyIndex};
use crate::text::string_texts;
use vstd::prelude::*;

verus! {

/// A key, by the texts of its parts.
pub type KeyTexts = Seq<Seq<char>>;

/// One entry of the map.
pub struct Entry<V> {
    key: Vec<String>,
    fetched_at: u64,
    ttl: u64,
    value: V,
}

/// What an entry holds.
pub struct EntryModel<V> {
    /// When the value was obtained.
    pub fetched_at: u64,
    /// How long the value counts as fresh.
    pub ttl: u64,
    /// The value.
    pub value: V,
}

/// Whether an entry has outlived its time to live at `now`. A clock reading before the entry
/// was made counts as no time passed.
pub open spec fn expired<V>(entry: EntryModel<V>, now: u64) -> bool {
    (if now >= entry.fetched_at {
        now - entry.fetched_at
    } else {
        0
    }) >= entry.ttl
}

/// The entries that are not expired at `now`.
pub open spec fn live<V>(m: Map<KeyTexts, EntryModel<V>>, now: u64) -> Map<KeyTexts, EntryModel<V>> {
    m.restrict(m.dom().filter(|k: KeyTexts| !expired(m[k], now)))
}

/// Whether no entry is older than the one under `k`.
pub open spec fn oldest<V>(m: Map<KeyTexts, EntryModel<V>>, k: KeyTexts) -> bool {
    &&& m.dom().contains(k)
    &&& forall|other: KeyTexts| #[trigger]
        m.dom().contains(other) ==> m[k].fetched_at <= m[other].fetched_at
}

/// What making room leaves of `before`: everything while there is room; else the live entries,
/// and one oldest less where those still fill the map.
pub open spec fn made_room<V>(
    before: Map<KeyTexts, EntryModel<V>>,
    after: Map<KeyTexts, EntryModel<V>>,
    capacity: nat,
    now: u64,
) -> bool {
    if before.dom().len() < capacity {
        after == before
    } else if live(before, now).dom().len() < capacity || live(before, now).dom().len() == 0 {
        after == live(before, now)
    } else {
        exists|k: KeyTexts| #[trigger]
            oldest(live(before, now), k) && after == live(before, now).remove(k)
    }
}

/// A bounded map whose entries expire.
pub struct ExpiringMap<V> {
    index: KeyIndex,
    entries: Vec<Entry<V>>,
}

impl<V> Entry<V> {
    spec fn model(self) -> EntryModel<V> {
        EntryModel { fetched_at: self.fetched_at, ttl: self.ttl, value: self.value }
    }

    spec fn key_texts(self) -> KeyTexts {
        string_texts(self.key@)
    }
}

impl<V> View for ExpiringMap<V> {
    type V = Map<KeyTexts, EntryModel<V>>;

    closed spec fn view(&self) -> Map<KeyTexts, EntryModel<V>> {
        Map::new(
            |k: KeyTexts| self.index@.dom().contains(k),
            |k: KeyTexts| self.entries@[self.index@[k] as int].model(),
        )
    }
}

fn elapsed(since: u64, now: u64) -> (r: u64)
    ensures
        r == (if now >= since {
            now - since
        } else {
            0
        }),
{
    if now >= since {
        now - since
    } else {
        0
    }
}

impl<V> ExpiringMap<V> {
    /// The index and the entries agree: every key has one entry, every entry is indexed.
    pub closed spec fn wf(&self) -> bool {
        &&& forall|k: KeyTexts| #[trigger]
            self.index@.dom().contains(k) ==> self.index@[k] < self.entries@.len()
                && self.entries@[self.index@[k] as int].key_texts() == k
        &&& forall|i: int|
            0 <= i < self.entries@.len() ==> {
                let k = (#[trigger] self.entries@[i]).key_texts();
                self.index@.dom().contains(k) && self.index@[k] == i
            }
    }

    /// How many entries there are.
    pub closed spec fn count(&self) -> nat {
        self.entries@.len()
    }

    /// The number of entries is the number of keys.
    pub proof fn lemma_count(&self)
        requires
            self.wf(),
        ensures
            self@.dom().finite(),
            self@.dom().len() == self.count(),
    {
        let keys = self.entries@.map_values(|e: Entry<V>| e.key_texts());
        assert forall|i: int, j: int| 0 <= i < keys.len() && 0 <= j < keys.len() && i != j implies keys[i]
            != keys[j] by {
            let a = self.entries@[i].key_texts();
            let b = self.entries@[j].key_texts();
            assert(self.index@[a] == i);
            assert(self.index@[b] == j);
        }
        keys.unique_seq_to_set();
        assert(self@.dom() =~= keys.to_set()) by {
            assert forall|k: KeyTexts| self@.dom().contains(k) == keys.to_set().contains(k) by {
                if self.index@.dom().contains(k) {
                    assert(keys[self.index@[k] as int] == k);
                }
                if keys.contains(k) {
                    let i = choose|i: int| 0 <= i < keys.len() && keys[i] == k;
                    assert(self.entries@[i].key_texts() == k);
                }
            }
        }
    }

    /// A map without entries.
    pub fn new() -> (r: Self)
        ensures
            r.wf(),
            r@ == Map::<KeyTexts, EntryModel<V>>::empty(),
            r.count() == 0,
    {
        let r = ExpiringMap { index: KeyIndex::new(), entries: Vec::new() };
        proof {
            assert(r@ =~= Map::<KeyTexts, EntryModel<V>>::empty());
        }
        r
    }

    /// How many entries there are, expired ones included.
    pub fn len(&self) -> (r: usize)
        requires
            self.wf(),
        ensures
            self@.dom().finite(),
            r == self@.dom().len(),
    {
        proof {
            self.lemma_count();
        }
        self.entries.len()
    }

    /// Whether there is an entry under `key`, expired or not.
    pub fn contains_key(&self, key: &Vec<String>) -> (r: bool)
        ensures
            r == self@.dom().contains(string_texts(key@)),
    {
        self.index.get(key).is_some()
    }

    /// The value under `key`, unless it is expired at `now`.
    pub fn get_fresh(&self, key: &Vec<String>, now: u64) -> (r: Option<&V>)
        requires
            self.wf(),
        ensures
            match r {
                Some(v) => self@.dom().contains(string_texts(key@)) && !expired(
                    self@[string_texts(key@)],
                    now,
                ) && *v == self@[string_texts(key@)].value,
                None => !self@.dom().contains(string_texts(key@)) || expired(
                    self@[string_texts(key@)],
                    now,
                ),
            },
    {
        match self.index.get(key) {
            None => None,
            Some(i) => {
                let entry = &self.entries[i];
                if elapsed(entry.fetched_at, now) < entry.ttl {
                    Some(&entry.value)
                } else {
                    None
                }
            },
        }
    }

    /// When the entry under `key` was made.
    pub fn fetched_at(&self, key: &Vec<String>) -> (r: Option<u64>)
        requires
            self.wf(),
        ensures
            r == (if self@.dom().contains(string_texts(key@)) {
                Some(self@[string_texts(key@)].fetched_at)
            } else {
                None
            }),
    {
        match self.index.get(key) {
            None => None,
            Some(i) => Some(self.entries[i].fetched_at),
        }
    }

    /// The time to live of the entry under `key`.
    pub fn ttl_of(&self, key: &Vec<String>) -> (r: Option<u64>)
        requires
            self.wf(),
        ensures
            r == (if self@.dom().contains(string_texts(key@)) {
                Some(self@[string_texts(key@)].ttl)
            } else {
                None
            }),
    {
        match self.index.get(key) {
            None => None,
            Some(i) => Some(self.entries[i].ttl),
        }
    }

    /// Drops the entry at position `i`; the last entry takes its place.
    fn drop_entry(&mut self, i: usize)
        requires
            old(self).wf(),
            i < old(self).entries@.len(),
        ensures
            final(self).wf(),
            final(self)@ == old(self)@.remove(old(self).entries@[i as int].key_texts()),
            final(self).entries@.len() == old(self).entries@.len() - 1,
            forall|j: int|
                0 <= j < i ==> #[trigger] final(self).entries@[j] == old(self).entries@[j],
    {
        let ghost before_index = self.index@;
        let ghost before = self.entries@;
        let ghost gone = before[i as int].key_texts();
        let ghost m = self@;
        let removed = self.entries.swap_remove(i);
        self.index.remove(&removed.key);
        if i < self.entries.len() {
            let key = copy_key(&self.entries[i].key);
            proof {
                let moved = before[before.len() - 1].key_texts();
                assert(self.entries@[i as int] == before[before.len() - 1]);
                assert(before_index[moved] == before.len() - 1);
                assert(before_index[gone] == i);
                assert(moved != gone);
            }
            self.index.insert(key, i);
        }
        proof {
            assert forall|k: KeyTexts| #[trigger] self.index@.dom().contains(k) implies self.index@[k]
                < self.entries@.len() && self.entries@[self.index@[k] as int].key_texts() == k by {
                assert(before_index.dom().contains(k));
                assert(k != gone);
            }
            assert forall|j: int| 0 <= j < self.entries@.len() implies {
                let k = (#[trigger] self.entries@[j]).key_texts();
                self.index@.dom().contains(k) && self.index@[k] == j
            } by {
                let k = self.entries@[j].key_texts();
                if j != i {
                    assert(self.entries@[j] == before[j]);
                    assert(before_index[k] == j);
                    assert(k != gone);
                }
            }
            assert forall|k: KeyTexts| self@.dom().contains(k) implies #[trigger] self@[k] == m.remove(
                gone,
            )[k] by {
                assert(self.index@.dom().contains(k));
                assert(before_index.dom().contains(k));
            }
            assert forall|k: KeyTexts| m.remove(gone).dom().contains(k) implies self@.dom().contains(
                k,
            ) by {
                assert(before_index.dom().contains(k));
            }
            assert(self@ =~= m.remove(gone));
        }
    }

    /// Makes room for one more entry: while the map holds fewer than `capacity` entries nothing
    /// happens; else every expired entry goes, and if that freed nothing, the oldest one.
    pub fn evict_expired_then_oldest(&mut self, capacity: usize, now: u64)
        requires
            old(self).wf(),
        ensures
            final(self).wf(),
            made_room(old(self)@, final(self)@, capacity as nat, now),
            final(self)@.dom().subset_of(old(self)@.dom()),
            final(self).count() <= old(self).count(),
            capacity > 0 && old(self).count() <= capacity ==> final(self).count() < capacity,
    {
        let ghost m = self@;
        proof {
            self.lemma_count();
        }
        if self.entries.len() < capacity {
            return;
        }
        let mut i: usize = 0;
        while i < self.entries.len()
            invariant
                self.wf(),
                i <= self.entries@.len(),
                self.entries@.len() <= old(self).entries@.len(),
                m == old(self)@,
                forall|j: int| 0 <= j < i ==> !expired((#[trigger] self.entries@[j]).model(), now),
                forall|k: KeyTexts| #[trigger]
                    self@.dom().contains(k) ==> m.dom().contains(k) && self@[k] == m[k],
                forall|k: KeyTexts|
                    m.dom().contains(k) && !self@.dom().contains(k) ==> expired(
                        #[trigger] m[k],
                        now,
                    ),
            decreases self.entries@.len() - i,
        {
            let ghost here = self.entries@[i as int];
            proof {
                assert(self.index@.dom().contains(here.key_texts()));
                assert(self@.dom().contains(here.key_texts()));
                assert(self@[here.key_texts()] == here.model());
            }
            if elapsed(self.entries[i].fetched_at, now) >= self.entries[i].ttl {
                self.drop_entry(i);
            } else {
                i += 1;
            }
        }
        proof {
            assert forall|k: KeyTexts| #[trigger] self@.dom().contains(k) implies !expired(m[k], now) by {
                assert(self.index@.dom().contains(k));
                let j = self.index@[k] as int;
                assert(!expired(self.entries@[j].model(), now));
            }
            assert(self@ =~= live(m, now));
            self.lemma_count();
        }
        if self.entries.len() >= capacity && self.entries.len() > 0 {
            let mut at: usize = 0;
            let mut j: usize = 1;
            while j < self.entries.len()
                invariant
                    1 <= j <= self.entries@.len(),
                    at < j,
                    forall|q: int|
                        0 <= q < j ==> self.entries@[at as int].fetched_at <= (
                        #[trigger] self.entries@[q]).fetched_at,
                decreases self.entries@.len() - j,
            {
                if self.entries[j].fetched_at < self.entries[at].fetched_at {
                    at = j;
                }
                j += 1;
            }
            let ghost k = self.entries@[at as int].key_texts();
            proof {
                assert(self.index@.dom().contains(k));
                assert forall|other: KeyTexts| #[trigger] self@.dom().contains(other) implies self@[k].fetched_at
                    <= self@[other].fetched_at by {
                    assert(self.index@.dom().contains(other));
                    let q = self.index@[other] as int;
                    assert(self.entries@[at as int].fetched_at <= self.entries@[q].fetched_at);
                }
                assert(oldest(self@, k));
            }
            self.drop_entry(at);
        }
    }

    /// Puts `value` under `key`, fresh for `ttl` from `now` on. A key that is new to a full map
    /// makes room first; refreshing a key that is present evicts nothing.
    pub fn insert(&mut self, key: Vec<String>, value: V, ttl: u64, now: u64, capacity: usize)
        requires
            old(self).wf(),
        ensures
            final(self).wf(),
            exists|room: Map<KeyTexts, EntryModel<V>>|
                (if old(self)@.dom().contains(string_texts(key@)) {
                    room == old(self)@
                } else {
                    made_room(old(self)@, room, capacity as nat, now)
                }) && final(self)@ == #[trigger] room.insert(
                    string_texts(key@),
                    EntryModel { fetched_at: now, ttl, value },
                ),
            capacity > 0 && old(self).count() <= capacity ==> final(self).count() <= capacity,
    {
        self.insert_fetched(key, value, ttl, now, now, capacity);
    }

    /// Puts `value`, obtained at `fetched_at`, under `key` at `now`, fresh for `ttl` from when it
    /// was obtained. A key that is new to a full map makes room first; refreshing a key that is
    /// present evicts nothing.
    pub fn insert_fetched(
        &mut self,
        key: Vec<String>,
        value: V,
        ttl: u64,
        fetched_at: u64,
        now: u64,
        capacity: usize,
    )
        requires
            old(self).wf(),
        ensures
            final(self).wf(),
            exists|room: Map<KeyTexts, EntryModel<V>>|
                (if old(self)@.dom().contains(string_texts(key@)) {
                    room == old(self)@
                } else {
                    made_room(old(self)@, room, capacity as nat, now)
                }) && final(self)@ == #[trigger] room.insert(
                    string_texts(key@),
                    EntryModel { fetched_at, ttl, value },
                ),
            capacity > 0 && old(self).count() <= capacity ==> final(self).count() <= capacity,
    {
        let ghost parts = string_texts(key@);
        let ghost model = EntryModel { fetched_at, ttl, value };
        match self.index.get(&key) {
            Some(i) => {
                let ghost m = self@;
                let ghost before = self.entries@;
                let entry = Entry { key, fetched_at, ttl, value };
                self.entries.set(i, entry);
                proof {
                    assert forall|j: int| 0 <= j < self.entries@.len() implies {
                        let k = (#[trigger] self.entries@[j]).key_texts();
                        self.index@.dom().contains(k) && self.index@[k] == j
                    } by {
                        if j != i {
                            assert(self.entries@[j] == before[j]);
                        }
                    }
                    assert forall|k: KeyTexts| #[trigger] self.index@.dom().contains(k) implies self.index@[k]
                        < self.entries@.len() && self.entries@[self.index@[k] as int].key_texts()
                        == k by {
                        if self.index@[k] != i {
                            assert(self.entries@[self.index@[k] as int]
                                == before[self.index@[k] as int]);
                        } else {
                            assert(before[i as int].key_texts() == k);
                        }
                    }
                    assert forall|k: KeyTexts| m.dom().contains(k) && k != parts implies #[trigger] self@[k]
                        == m[k] by {
                        assert(self.index@.dom().contains(k));
                        assert(self.index@[k] != i) by {
                            assert(before[self.index@[k] as int].key_texts() == k);
                            assert(before[i as int].key_texts() == parts);
                        }
                    }
                    assert(self@ =~= m.insert(parts, model));
                }
            },
            None => {
                self.evict_expired_then_oldest(capacity, now);
                let ghost room = self@;
                let ghost before = self.entries@;
                let ghost before_index = self.index@;
                let at: usize = self.entries.len();
                proof {
                    assert(!room.dom().contains(parts)) by {
                        assert(!old(self)@.dom().contains(parts));
                    }
                    assert(!self.index@.dom().contains(parts));
                }
                let stored = copy_key(&key);
                self.entries.push(Entry { key: stored, fetched_at, ttl, value });
                self.index.insert(key, at);
                proof {
                    assert forall|j: int| 0 <= j < self.entries@.len() implies {
                        let k = (#[trigger] self.entries@[j]).key_texts();
                        self.index@.dom().contains(k) && self.index@[k] == j
                    } by {
                        if j < before.len() {
                            assert(self.entries@[j] == before[j]);
                            assert(before_index.dom().contains(before[j].key_texts()));
                        }
                    }
                    assert forall|k: KeyTexts| #[trigger] self.index@.dom().contains(k) implies self.index@[k]
                        < self.entries@.len() && self.entries@[self.index@[k] as int].key_texts()
                        == k by {
                        if k != parts {
                            assert(before_index.dom().contains(k));
                            assert(self.entries@[before_index[k] as int]
                                == before[before_index[k] as int]);
                        }
                    }
                    assert forall|k: KeyTexts| room.dom().contains(k) implies #[trigger] self@[k]
                        == room[k] by {
                        assert(before_index.dom().contains(k));
                        assert(self.entries@[before_index[k] as int]
                            == before[before_index[k] as int]);
                    }
                    assert(self@ =~= room.insert(parts, model));
                }
            },
        }
    }

    /// Drops the entry under `key`.
    pub fn remove(&mut self, key: &Vec<String>)
        requires
            old(self).wf(),
        ensures
            final(self).wf(),
            final(self)@ == old(self)@.remove(string_texts(key@)),
            final(self).count() <= old(self).count(),
    {
        let ghost m = self@;
        let ghost parts = string_texts(key@);
        match self.index.get(key) {
            Some(i) => {
                proof {
                    assert(self.index@.dom().contains(parts));
                }
                self.drop_entry(i);
            },
            None => {
                proof {
                    assert(m.remove(parts) =~= m);
                }
            },
        }
    }
}

// ---------------------------------------------------------------------------
// Laws
// ---------------------------------------------------------------------------

/// Making room never drops a live entry while an expired one remains. A live entry that is dropped
/// is no newer than any that is kept, and what is kept stays as it was.
pub proof fn law_eviction_prefers_expired_entries<V>(
    before: Map<KeyTexts, EntryModel<V>>,
    after: Map<KeyTexts, EntryModel<V>>,
    capacity: nat,
    now: u64,
    kept: KeyTexts,
    dropped: KeyTexts,
)
    requires
        made_room(before, after, capacity, now),
        after.dom().contains(kept),
        before.dom().contains(dropped),
        !after.dom().contains(dropped),
    ensures
        expired(before[dropped], now) || (!expired(before[kept], now) && before[dropped].fetched_at
            <= before[kept].fetched_at),
        before[kept] == after[kept],
{
    let l = live(before, now);
    if before.dom().len() >= capacity && !(l.dom().len() < capacity || l.dom().len() == 0) {
        let k = choose|k: KeyTexts| #[trigger] oldest(l, k) && after == l.remove(k);
        assert(l.dom().contains(kept));
        if !expired(before[dropped], now) {
            assert(l.dom().contains(dropped));
            assert(dropped == k);
        }
    }
}

/// An entry lives from when it was obtained for its time to live, and no longer.
pub proof fn law_entries_expire_with_their_time<V>(entry: EntryModel<V>, now: u64)
    ensures
        expired(entry, now) <==> entry.ttl == 0 || now >= entry.fetched_at + entry.ttl,
{
}

/// While there is room nothing is dropped. In a full map no expired entry stays; live entries all
/// stay where that makes room, and at most one of them goes where it does not.
pub proof fn law_eviction_drops_no_more_than_it_must<V>(
    before: Map<KeyTexts, EntryModel<V>>,
    after: Map<KeyTexts, EntryModel<V>>,
    capacity: nat,
    now: u64,
    a: KeyTexts,
    b: KeyTexts,
)
    requires
        made_room(before, after, capacity, now),
        before.dom().finite(),
        before.dom().contains(a) && before.dom().contains(b),
    ensures
        before.dom().len() < capacity ==> after == before,
        before.dom().len() >= capacity && expired(before[a], now) ==> !after.dom().contains(a),
        before.dom().len() <= capacity && expired(before[a], now) && !expired(before[b], now)
            ==> after.dom().contains(b) && after[b] == before[b],
        !expired(before[a], now) && !expired(before[b], now) && !after.dom().contains(a)
            && !after.dom().contains(b) ==> a == b,
        after.dom().subset_of(before.dom()),
{
    let l = live(before, now);
    assert(l.dom().subset_of(before.dom()));
    if before.dom().len() >= capacity {
        if expired(before[a], now) {
            assert(!l.dom().contains(a));
            assert(l.dom().subset_of(before.dom().remove(a)));
            vstd::set_lib::lemma_len_subset(l.dom(), before.dom().remove(a));
        }
        if !expired(before[b], now) {
            assert(l.dom().contains(b));
        }
        if !expired(before[a], now) {
            assert(l.dom().contains(a));
        }
    }
}

} // verus!
