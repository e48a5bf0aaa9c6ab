//! The response cache: a bounded store of translations that forgets the
//! least recently used entry when it is full, and every entry once its time
//! to live has passed.
//!
//! The store itself is an `lru::LruCache`, behind the trusted items at the
//! end of this file. Times are ticks of a clock that the caller reads.

use vstd::prelude::*;
use lru::LruCache;
use std::num::NonZeroUsize;

verus! {

/// The largest capacity that a cache can be made with. A cache reserves
/// the table that indexes its entries when it is made; for a capacity above
/// this one the size of that table is beyond what can be counted, and no
/// cache can be made. Below it a cache needs the memory for its table, as
/// any allocation does.
pub const MAX_CAPACITY: usize = usize::MAX / 128;

/// A cached translation with the time after which it is stale.
#[derive(Clone)]
pub struct CacheEntry {
    pub value: String,
    pub expires_at: u64,
}

/// The model of the store: an entry is a key, a text and the time after
/// which it is stale. The most recently used entry comes first.
pub type Entries = Seq<(Seq<char>, Seq<char>, u64)>;

/// The index of the first entry with `key`, or the number of entries where
/// none has it.
pub open spec fn key_index(entries: Entries, key: Seq<char>) -> int
    decreases entries.len(),
{
    if entries.len() == 0 {
        0
    } else if entries[0].0 == key {
        0
    } else {
        1 + key_index(entries.drop_first(), key)
    }
}

/// Whether an entry with `key` is stored.
pub open spec fn has_key(entries: Entries, key: Seq<char>) -> bool {
    key_index(entries, key) < entries.len()
}

/// Whether no two entries have the same key.
pub open spec fn distinct_keys(entries: Entries) -> bool {
    forall|i: int, j: int| 0 <= i < j < entries.len() ==> entries[i].0 != entries[j].0
}

/// The entries with the one at `i` moved to the front.
pub open spec fn promoted(entries: Entries, i: int) -> Entries {
    seq![entries[i]] + entries.remove(i)
}

/// The entries without the one that has `key`.
pub open spec fn without_key(entries: Entries, key: Seq<char>) -> Entries {
    if has_key(entries, key) {
        entries.remove(key_index(entries, key))
    } else {
        entries
    }
}

/// The entries after `entry` is stored in a store that holds at most
/// `capacity`: the entry comes first; an older entry with its key is
/// replaced; else, where the store is full, the last entry leaves.
pub open spec fn with_entry(entries: Entries, capacity: nat, entry: (Seq<char>, Seq<char>, u64))
    -> Entries {
    if has_key(entries, entry.0) {
        seq![entry] + entries.remove(key_index(entries, entry.0))
    } else if entries.len() < capacity {
        seq![entry] + entries
    } else {
        seq![entry] + entries.drop_last()
    }
}

/// What a lookup of `key` at `now` returns: the text of the entry with that
/// key, unless it is stale.
pub open spec fn lookup(entries: Entries, key: Seq<char>, now: u64) -> Option<Seq<char>> {
    let i = key_index(entries, key);
    if i < entries.len() && now <= entries[i].2 {
        Some(entries[i].1)
    } else {
        None
    }
}

/// The entries after a lookup of `key` at `now`: a fresh entry moves to the
/// front, a stale one is removed.
pub open spec fn after_get(entries: Entries, key: Seq<char>, now: u64) -> Entries {
    let i = key_index(entries, key);
    if i < entries.len() && now <= entries[i].2 {
        promoted(entries, i)
    } else {
        without_key(entries, key)
    }
}

/// The time after which an entry stored at `now` is stale.
pub open spec fn expiry(now: u64, ttl: u64) -> u64 {
    if now + ttl <= u64::MAX {
        (now + ttl) as u64
    } else {
        u64::MAX
    }
}

/// The entries after `text` is stored under `key` at `now`.
pub open spec fn after_set(
    entries: Entries,
    capacity: nat,
    ttl: u64,
    key: Seq<char>,
    text: Seq<char>,
    now: u64,
) -> Entries {
    with_entry(entries, capacity, (key, text, expiry(now, ttl)))
}

/// `key_index` is the first index with the key: it is in range, the entry
/// there has the key where it is below the length, and no earlier entry has.
pub proof fn lemma_key_index(entries: Entries, key: Seq<char>)
    ensures
        0 <= key_index(entries, key) <= entries.len(),
        has_key(entries, key) ==> entries[key_index(entries, key)].0 == key,
        forall|i: int| 0 <= i < key_index(entries, key) ==> (#[trigger] entries[i]).0 != key,
    decreases entries.len(),
{
    if entries.len() > 0 && entries[0].0 != key {
        let rest = entries.drop_first();
        lemma_key_index(rest, key);
        assert forall|i: int| 0 <= i < key_index(entries, key) implies (#[trigger] entries[i]).0
            != key by {
            if i > 0 {
                assert(entries[i] == rest[i - 1]);
            }
        }
    }
}

/// Where the entry at `i` has `key` and no earlier one has, `key_index` is `i`.
pub proof fn lemma_key_index_is(entries: Entries, key: Seq<char>, i: int)
    requires
        0 <= i < entries.len(),
        entries[i].0 == key,
        forall|j: int| 0 <= j < i ==> (#[trigger] entries[j]).0 != key,
    ensures
        key_index(entries, key) == i,
{
    lemma_key_index(entries, key);
    let k = key_index(entries, key);
    if k < i {
        assert(entries[k].0 != key);
    }
}

/// Moving an entry to the front, removing one and storing one keep the keys
/// distinct, and storing keeps the store within its capacity.
pub proof fn lemma_distinct_kept(entries: Entries, capacity: nat, entry: (Seq<char>, Seq<char>, u64))
    requires
        distinct_keys(entries),
        entries.len() <= capacity,
        capacity >= 1,
    ensures
        has_key(entries, entry.0) ==> distinct_keys(promoted(entries, key_index(entries, entry.0))),
        distinct_keys(without_key(entries, entry.0)),
        without_key(entries, entry.0).len() <= entries.len(),
        distinct_keys(with_entry(entries, capacity, entry)),
        with_entry(entries, capacity, entry).len() <= capacity,
        !has_key(without_key(entries, entry.0), entry.0),
{
    lemma_key_index(entries, entry.0);
    let i = key_index(entries, entry.0);
    let key = entry.0;
    if has_key(entries, key) {
        let rest = entries.remove(i);
        assert forall|a: int| 0 <= a < rest.len() implies (#[trigger] rest[a]).0 != key by {
            if a < i {
                assert(rest[a] == entries[a]);
            } else {
                assert(rest[a] == entries[a + 1]);
            }
        }
        assert(distinct_keys(rest)) by {
            assert forall|a: int, b: int| 0 <= a < b < rest.len() implies rest[a].0 != rest[b].0 by {
                let a0 = if a < i { a } else { a + 1 };
                let b0 = if b < i { b } else { b + 1 };
                assert(rest[a] == entries[a0] && rest[b] == entries[b0]);
            }
        }
        let moved = promoted(entries, i);
        assert forall|a: int, b: int| 0 <= a < b < moved.len() implies moved[a].0 != moved[b].0 by {
            assert(moved[b] == rest[b - 1]);
            if a > 0 {
                assert(moved[a] == rest[a - 1]);
            }
        }
        let stored = with_entry(entries, capacity, entry);
        assert forall|a: int, b: int| 0 <= a < b < stored.len() implies stored[a].0 != stored[b].0 by {
            assert(stored[b] == rest[b - 1]);
            if a > 0 {
                assert(stored[a] == rest[a - 1]);
            }
        }
        lemma_key_index(rest, key);
    } else {
        let kept = if entries.len() < capacity { entries } else { entries.drop_last() };
        let stored = with_entry(entries, capacity, entry);
        assert(stored =~= seq![entry] + kept);
        assert forall|a: int, b: int| 0 <= a < b < stored.len() implies stored[a].0 != stored[b].0 by {
            assert(stored[b] == entries[b - 1]);
            if a > 0 {
                assert(stored[a] == entries[a - 1]);
            }
        }
    }
}

/// An entry stored at `stored_at` is found up to `stored_at` plus the time
/// to live, and no longer after that.
pub proof fn lemma_fresh_until_expiry(
    entries: Entries,
    capacity: nat,
    ttl: u64,
    key: Seq<char>,
    text: Seq<char>,
    stored_at: u64,
    now: u64,
)
    ensures
        lookup(after_set(entries, capacity, ttl, key, text, stored_at), key, now) == if now
            <= stored_at + ttl {
            Some(text)
        } else {
            None
        },
{
    let stored = after_set(entries, capacity, ttl, key, text, stored_at);
    assert(stored[0] == (key, text, expiry(stored_at, ttl)));
}

/// Storing under a new key in a full store removes exactly the least
/// recently used entry: the last. Every other entry stays, behind the new
/// one and in its order.
pub proof fn lemma_full_store_evicts_last(
    entries: Entries,
    capacity: nat,
    entry: (Seq<char>, Seq<char>, u64),
)
    requires
        distinct_keys(entries),
        entries.len() == capacity,
        capacity >= 1,
        !has_key(entries, entry.0),
    ensures
        with_entry(entries, capacity, entry) == seq![entry] + entries.drop_last(),
        with_entry(entries, capacity, entry).len() == capacity,
        !has_key(with_entry(entries, capacity, entry), entries.last().0),
        forall|i: int|
            0 <= i < entries.len() - 1 ==> has_key(
                with_entry(entries, capacity, entry),
                (#[trigger] entries[i]).0,
            ),
{
    let stored = with_entry(entries, capacity, entry);
    let gone = entries.last().0;
    lemma_key_index(entries, entry.0);
    lemma_key_index(stored, gone);
    if has_key(stored, gone) {
        let k = key_index(stored, gone);
        if k == 0 {
            assert(entries[entries.len() - 1].0 == entry.0);
        } else {
            assert(stored[k] == entries[k - 1]);
        }
    }
    assert forall|i: int| 0 <= i < entries.len() - 1 implies has_key(
        stored,
        (#[trigger] entries[i]).0,
    ) by {
        lemma_key_index(stored, entries[i].0);
        if !has_key(stored, entries[i].0) {
            assert(stored[i + 1] == entries[i]);
        }
    }
}

/// A lookup that finds a fresh entry counts as a use: the entry becomes the
/// most recently used, so that of a full store of two or more the next
/// entry stored under a new key removes another one.
pub proof fn lemma_get_refreshes(
    entries: Entries,
    capacity: nat,
    key: Seq<char>,
    now: u64,
    entry: (Seq<char>, Seq<char>, u64),
)
    requires
        distinct_keys(entries),
        entries.len() == capacity,
        capacity >= 2,
        lookup(entries, key, now) is Some,
        !has_key(entries, entry.0),
    ensures
        after_get(entries, key, now)[0].0 == key,
        after_get(entries, key, now).len() == entries.len(),
        has_key(with_entry(after_get(entries, key, now), capacity, entry), key),
        with_entry(after_get(entries, key, now), capacity, entry)[1].0 == key,
{
    lemma_key_index(entries, key);
    lemma_key_index(entries, entry.0);
    let i = key_index(entries, key);
    let used = after_get(entries, key, now);
    assert(used[0] == entries[i]);
    assert forall|j: int| 0 <= j < used.len() implies (#[trigger] used[j]).0 != entry.0 by {
        if j == 0 {
        } else if j <= i {
            assert(used[j] == entries[j - 1]);
        } else {
            assert(used[j] == entries[j]);
        }
    }
    lemma_key_index(used, entry.0);
    let stored = with_entry(used, capacity, entry);
    assert(stored =~= seq![entry] + used.drop_last());
    assert(stored[1] == used[0]);
    assert(stored[0].0 != key);
    lemma_key_index_is(stored, key, 1);
}

/// The entries after each of `items` is stored in turn.
pub open spec fn with_entries(
    entries: Entries,
    capacity: nat,
    items: Seq<(Seq<char>, Seq<char>, u64)>,
) -> Entries
    decreases items.len(),
{
    if items.len() == 0 {
        entries
    } else {
        with_entry(with_entries(entries, capacity, items.drop_last(), ), capacity, items.last())
    }
}

/// Stored in an empty store, entries under distinct keys stay until the
/// store is full, the latest first.
pub proof fn lemma_fill(capacity: nat, items: Seq<(Seq<char>, Seq<char>, u64)>)
    requires
        capacity >= 1,
        items.len() <= capacity,
        distinct_keys(items),
    ensures
        with_entries(Seq::empty(), capacity, items) == items.reverse(),
    decreases items.len(),
{
    if items.len() > 0 {
        let front = items.drop_last();
        assert(distinct_keys(front)) by {
            assert forall|i: int, j: int| 0 <= i < j < front.len() implies front[i].0
                != front[j].0 by {
                assert(front[i] == items[i] && front[j] == items[j]);
            }
        }
        lemma_fill(capacity, front);
        let held = front.reverse();
        let last = items.last();
        assert forall|i: int| 0 <= i < held.len() implies (#[trigger] held[i]).0 != last.0 by {
            assert(held[i] == items[front.len() - 1 - i]);
        }
        lemma_key_index(held, last.0);
        assert(with_entry(held, capacity, last) =~= items.reverse());
    } else {
        assert(items.reverse() =~= Seq::<(Seq<char>, Seq<char>, u64)>::empty());
    }
}

/// Storing one entry more than an empty store holds, all under distinct
/// keys, removes exactly the first one stored: the least recently used.
pub proof fn lemma_overfill_evicts_first(capacity: nat, items: Seq<(Seq<char>, Seq<char>, u64)>)
    requires
        capacity >= 1,
        items.len() == capacity + 1,
        distinct_keys(items),
    ensures
        with_entries(Seq::empty(), capacity, items) == items.skip(1).reverse(),
        !has_key(with_entries(Seq::empty(), capacity, items), items[0].0),
        forall|i: int|
            1 <= i < items.len() ==> has_key(
                with_entries(Seq::empty(), capacity, items),
                (#[trigger] items[i]).0,
            ),
{
    let front = items.drop_last();
    let last = items.last();
    assert(distinct_keys(front)) by {
        assert forall|i: int, j: int| 0 <= i < j < front.len() implies front[i].0 != front[j].0 by {
            assert(front[i] == items[i] && front[j] == items[j]);
        }
    }
    lemma_fill(capacity, front);
    let held = front.reverse();
    assert(distinct_keys(held)) by {
        assert forall|i: int, j: int| 0 <= i < j < held.len() implies held[i].0 != held[j].0 by {
            assert(held[i] == items[front.len() - 1 - i] && held[j] == items[front.len() - 1 - j]);
        }
    }
    assert forall|i: int| 0 <= i < held.len() implies (#[trigger] held[i]).0 != last.0 by {
        assert(held[i] == items[front.len() - 1 - i]);
    }
    lemma_key_index(held, last.0);
    lemma_full_store_evicts_last(held, capacity, last);
    let stored = with_entries(Seq::empty(), capacity, items);
    assert(stored =~= items.skip(1).reverse());
    assert(held.last() == items[0]);
    assert forall|i: int| 1 <= i < items.len() implies has_key(stored, (#[trigger] items[i]).0) by {
        if i < items.len() - 1 {
            assert(held[front.len() - 1 - i] == items[i]);
        } else {
            lemma_key_index(stored, last.0);
            assert(stored[0] == last);
        }
    }
}

/// A bounded store of translations by key.
pub struct Cache {
    ttl: u64,
    inner: LruCache<String, CacheEntry>,
}

impl Cache {
    /// The time that an entry stays fresh.
    pub closed spec fn ttl(&self) -> u64 {
        self.ttl
    }

    /// The number of entries that the cache holds at most.
    pub closed spec fn capacity(&self) -> nat {
        lru_capacity(self.inner)
    }

    /// The entries, most recently used first.
    pub closed spec fn entries(&self) -> Entries {
        lru_entries(self.inner)
    }

    /// The cache holds at most `capacity` entries, which is at least one,
    /// and no two of them under the same key.
    pub open spec fn wf(&self) -> bool {
        &&& self.capacity() >= 1
        &&& self.entries().len() <= self.capacity()
        &&& distinct_keys(self.entries())
    }

    /// An empty cache for `max_size` entries that stay fresh for `ttl`. A
    /// `max_size` of zero counts as one.
    pub fn new(max_size: usize, ttl: u64) -> (cache: Cache)
        requires
            max_size <= MAX_CAPACITY,
        ensures
            cache.wf(),
            cache.ttl() == ttl,
            cache.capacity() == if max_size == 0 { 1 } else { max_size as nat },
            cache.entries() == Seq::<(Seq<char>, Seq<char>, u64)>::empty(),
    {
        Cache { ttl, inner: lru_new(if max_size == 0 { 1 } else { max_size }) }
    }

    /// Looks `key` up at `now`.
    ///
    /// A fresh entry gives its text and becomes the most recently used. A
    /// stale entry, one read after the time it was stored at plus the time
    /// to live, is removed and gives nothing, as a key that is not stored
    /// does.
    pub fn get(&mut self, key: &str, now: u64) -> (found: Option<String>)
        requires
            old(self).wf(),
        ensures
            final(self).wf(),
            final(self).ttl() == old(self).ttl(),
            final(self).capacity() == old(self).capacity(),
            match lookup(old(self).entries(), key@, now) {
                Some(text) => found is Some && found->0@ == text,
                None => found is None,
            },
            final(self).entries() == after_get(old(self).entries(), key@, now),
    {
        let ghost before = self.entries();
        let ghost i = key_index(before, key@);
        proof {
            lemma_key_index(before, key@);
            lemma_distinct_kept(before, self.capacity(), (key@, Seq::empty(), 0));
        }
        match lru_get(&mut self.inner, key) {
            Some(entry) => {
                if now <= entry.expires_at {
                    return Some(entry.value);
                }
                proof {
                    let moved = promoted(before, i);
                    lemma_key_index_is(moved, key@, 0);
                    assert(moved.remove(0) =~= before.remove(i));
                }
            },
            None => {},
        }
        lru_pop(&mut self.inner, key);
        None
    }

    /// Stores `value` under `key` at `now`, as the most recently used entry,
    /// fresh until `now` plus the time to live.
    ///
    /// An entry already stored under `key` is replaced. Else, where the
    /// cache is full, the least recently used entry leaves, stale or not.
    pub fn set(&mut self, key: String, value: String, now: u64)
        requires
            old(self).wf(),
        ensures
            final(self).wf(),
            final(self).ttl() == old(self).ttl(),
            final(self).capacity() == old(self).capacity(),
            final(self).entries() == after_set(
                old(self).entries(),
                old(self).capacity(),
                old(self).ttl(),
                key@,
                value@,
                now,
            ),
    {
        let expires_at: u64 = match now.checked_add(self.ttl) {
            Some(at) => at,
            None => u64::MAX,
        };
        proof {
            lemma_distinct_kept(self.entries(), self.capacity(), (key@, value@, expires_at));
        }
        lru_put(&mut self.inner, key, CacheEntry { value, expires_at });
    }

    /// The number of entries stored, stale ones included.
    pub fn len(&self) -> (n: usize)
        ensures
            n == self.entries().len(),
    {
        lru_len(&self.inner)
    }
}

/// `lru::LruCache`, known to the verifier by its name alone.
#[verifier::external_type_specification]
#[verifier::external_body]
#[verifier::reject_recursive_types(K)]
#[verifier::reject_recursive_types(V)]
#[verifier::reject_recursive_types(S)]
pub struct ExLruCache<K, V, S>(LruCache<K, V, S>);

/// `lru::DefaultHasher`, the hasher of an `LruCache` made by `LruCache::new`;
/// known to the verifier by its name alone.
#[verifier::external_type_specification]
#[verifier::external_body]
pub struct ExDefaultHasher(lru::DefaultHasher);

/// What an `LruCache` holds: for each entry its key, its text and the time
/// after which it is stale, from the most recently used entry to the least.
pub uninterp spec fn lru_entries(store: LruCache<String, CacheEntry>) -> Seq<
    (Seq<char>, Seq<char>, u64),
>;

/// The capacity that an `LruCache` was made with.
pub uninterp spec fn lru_capacity(store: LruCache<String, CacheEntry>) -> nat;

/// Calls `LruCache::new`. Trusted: the new store is empty and has the
/// capacity given. `LruCache::new` takes a capacity that is not zero and
/// reserves a hash table for that many entries at once, and panics where
/// the size of that table in bytes overflows; up to the bound it does not.
#[verifier::external_body]
fn lru_new(capacity: usize) -> (store: LruCache<String, CacheEntry>)
    requires
        1 <= capacity <= MAX_CAPACITY,
    ensures
        lru_entries(store) == Seq::<(Seq<char>, Seq<char>, u64)>::empty(),
        lru_capacity(store) == capacity,
{
    LruCache::new(NonZeroUsize::new(capacity).unwrap())
}

/// Calls `LruCache::len`. Trusted: it is the number of entries.
#[verifier::external_body]
fn lru_len(store: &LruCache<String, CacheEntry>) -> (n: usize)
    ensures
        n == lru_entries(*store).len(),
{
    store.len()
}

/// Calls `LruCache::get` and copies the entry found. Trusted: an entry with
/// the key is returned and moved to the front; without one nothing changes.
#[verifier::external_body]
fn lru_get(store: &mut LruCache<String, CacheEntry>, key: &str) -> (found: Option<CacheEntry>)
    ensures
        lru_capacity(*final(store)) == lru_capacity(*old(store)),
        has_key(lru_entries(*old(store)), key@) ==> found is Some && ({
            let i = key_index(lru_entries(*old(store)), key@);
            &&& found->0.value@ == lru_entries(*old(store))[i].1
            &&& found->0.expires_at == lru_entries(*old(store))[i].2
            &&& lru_entries(*final(store)) == promoted(lru_entries(*old(store)), i)
        }),
        !has_key(lru_entries(*old(store)), key@) ==> found is None && lru_entries(*final(store))
            == lru_entries(*old(store)),
{
    store.get(key).cloned()
}

/// Calls `LruCache::pop`. Trusted: the entry with the key, if any, is
/// removed, and the others keep their order.
#[verifier::external_body]
fn lru_pop(store: &mut LruCache<String, CacheEntry>, key: &str)
    ensures
        lru_capacity(*final(store)) == lru_capacity(*old(store)),
        lru_entries(*final(store)) == without_key(lru_entries(*old(store)), key@),
{
    store.pop(key);
}

/// Calls `LruCache::put`. Trusted: the entry becomes the first; an entry
/// with the same key is replaced; else, in a full store, the last entry
/// leaves.
#[verifier::external_body]
fn lru_put(store: &mut LruCache<String, CacheEntry>, key: String, entry: CacheEntry)
    ensures
        lru_capacity(*final(store)) == lru_capacity(*old(store)),
        lru_entries(*final(store)) == with_entry(
            lru_entries(*old(store)),
            lru_capacity(*old(store)),
            (key@, entry.value@, entry.expires_at),
        ),
{
    store.put(key, entry);
}

} // verus!
