//! Bounded caches in memory, keyed by node. When a cache is full, the entry that
//! has not been used for longest makes room.

use std::num::NonZeroUsize;
use vstd::prelude::*;

use crate::ids::NodeUid;
use crate::text::owned;

verus! {

/// The bounded map of the `lru` crate.
#[verifier::external_type_specification]
#[verifier::external_body]
#[verifier::reject_recursive_types(K)]
#[verifier::reject_recursive_types(V)]
#[verifier::reject_recursive_types(S)]
pub struct ExLruCache<K, V, S>(lru::LruCache<K, V, S>);

/// The hasher that the `lru` crate uses unless told otherwise.
#[verifier::external_type_specification]
#[verifier::external_body]
pub struct ExLruHasher(lru::DefaultHasher);

/// A map of the `lru` crate, keyed by volume and link.
pub type NodeLru = lru::LruCache<(String, String), String>;

/// A node and what is kept for it.
pub type Entry = ((Seq<char>, Seq<char>), Seq<char>);

/// The entries of a map, the one used last first.
pub uninterp spec fn lru_entries(map: NodeLru) -> Seq<Entry>;

/// How many entries a map holds at most.
pub uninterp spec fn lru_bound(map: NodeLru) -> nat;

/// Whether an entry with the key is there.
pub open spec fn has_key(entries: Seq<Entry>, key: (Seq<char>, Seq<char>)) -> bool {
    exists|i: int| 0 <= i < entries.len() && (#[trigger] entries[i]).0 == key
}

/// Where the entry with the key stands.
pub open spec fn slot_of(entries: Seq<Entry>, key: (Seq<char>, Seq<char>)) -> int {
    choose|i: int| 0 <= i < entries.len() && (#[trigger] entries[i]).0 == key
}

/// What is kept under the key.
pub open spec fn kept_under(entries: Seq<Entry>, key: (Seq<char>, Seq<char>)) -> Option<
    Seq<char>,
> {
    if has_key(entries, key) {
        Some(entries[slot_of(entries, key)].1)
    } else {
        None
    }
}

/// The entries without the one under the key.
pub open spec fn without(entries: Seq<Entry>, key: (Seq<char>, Seq<char>)) -> Seq<Entry> {
    if has_key(entries, key) {
        entries.remove(slot_of(entries, key))
    } else {
        entries
    }
}

/// The entries after a hit, which makes the entry the one used last.
pub open spec fn touched(entries: Seq<Entry>, key: (Seq<char>, Seq<char>)) -> Seq<Entry> {
    if has_key(entries, key) {
        seq![entries[slot_of(entries, key)]] + without(entries, key)
    } else {
        entries
    }
}

/// The entries after something was put under the key. It takes the place of what
/// was there; when there was nothing and the map is full, the entry used least
/// recently leaves.
pub open spec fn with_entry(
    entries: Seq<Entry>,
    bound: nat,
    key: (Seq<char>, Seq<char>),
    value: Seq<char>,
) -> Seq<Entry> {
    if has_key(entries, key) {
        seq![(key, value)] + without(entries, key)
    } else if entries.len() == bound {
        seq![(key, value)] + entries.drop_last()
    } else {
        seq![(key, value)] + entries
    }
}

/// `LruCache::new`: an empty map with a bound. Its table is made for that many
/// entries, so the bound leaves room for their sizes to add up.
#[verifier::external_body]
fn lru_new(bound: usize) -> (map: NodeLru)
    requires
        0 < bound <= usize::MAX / 128,
    ensures
        lru_entries(map) == Seq::<Entry>::empty(),
        lru_bound(map) == bound,
{
    lru::LruCache::new(NonZeroUsize::new(bound).expect("a bound above zero"))
}

/// `LruCache::get` returns what is kept under the key, and makes that entry the
/// one used last.
#[verifier::external_body]
fn lru_get(map: &mut NodeLru, key: &(String, String)) -> (r: Option<String>)
    ensures
        lru_entries(*final(map)) == touched(lru_entries(*old(map)), (key.0@, key.1@)),
        lru_bound(*final(map)) == lru_bound(*old(map)),
        match r {
            Some(value) => kept_under(lru_entries(*old(map)), (key.0@, key.1@)) == Some(value@),
            None => !has_key(lru_entries(*old(map)), (key.0@, key.1@)),
        },
{
    map.get(key).cloned()
}

/// `LruCache::peek` returns what is kept under the key and changes nothing.
#[verifier::external_body]
fn lru_peek(map: &NodeLru, key: &(String, String)) -> (r: Option<String>)
    ensures
        match r {
            Some(value) => kept_under(lru_entries(*map), (key.0@, key.1@)) == Some(value@),
            None => !has_key(lru_entries(*map), (key.0@, key.1@)),
        },
{
    map.peek(key).cloned()
}

/// `LruCache::put` puts the value under the key as the entry used last. A full map
/// loses its least recently used entry, unless the key was there.
#[verifier::external_body]
fn lru_put(map: &mut NodeLru, key: (String, String), value: String)
    ensures
        lru_entries(*final(map)) == with_entry(
            lru_entries(*old(map)),
            lru_bound(*old(map)),
            (key.0@, key.1@),
            value@,
        ),
        lru_bound(*final(map)) == lru_bound(*old(map)),
{
    let _ = map.put(key, value);
}

/// `LruCache::pop` takes the entry under the key out.
#[verifier::external_body]
fn lru_pop(map: &mut NodeLru, key: &(String, String))
    ensures
        lru_entries(*final(map)) == without(lru_entries(*old(map)), (key.0@, key.1@)),
        lru_bound(*final(map)) == lru_bound(*old(map)),
{
    let _ = map.pop(key);
}

/// `LruCache::clear` takes every entry out.
#[verifier::external_body]
fn lru_clear(map: &mut NodeLru)
    ensures
        lru_entries(*final(map)) == Seq::<Entry>::empty(),
        lru_bound(*final(map)) == lru_bound(*old(map)),
{
    map.clear()
}

/// `LruCache::cap` returns the bound.
#[verifier::external_body]
fn lru_cap(map: &NodeLru) -> (bound: usize)
    ensures
        bound == lru_bound(*map),
{
    map.cap().get()
}

/// Something kept per node, for a bounded number of nodes.
pub struct NodeCache {
    map: NodeLru,
}

impl NodeCache {
    /// The entries, the one used last first.
    pub closed spec fn entries(self) -> Seq<Entry> {
        lru_entries(self.map)
    }

    /// How many nodes there can be entries for.
    pub closed spec fn bound(self) -> nat {
        lru_bound(self.map)
    }

    /// No node has two entries, and there are no more than the bound.
    pub open spec fn well_formed(self) -> bool {
        &&& self.bound() > 0
        &&& self.entries().len() <= self.bound()
        &&& distinct_keys(self.entries())
    }

    /// An empty cache for `bound` nodes.
    pub fn new(bound: usize) -> (cache: NodeCache)
        requires
            0 < bound <= usize::MAX / 128,
        ensures
            cache.well_formed(),
            cache.entries() == Seq::<Entry>::empty(),
            cache.bound() == bound,
    {
        NodeCache { map: lru_new(bound) }
    }

    /// How many nodes there can be entries for.
    pub fn cap(&self) -> (bound: usize)
        ensures
            bound == self.bound(),
    {
        lru_cap(&self.map)
    }

    /// What is kept for the node. The entry becomes the one used last.
    pub fn get(&mut self, uid: &NodeUid) -> (r: Option<String>)
        requires
            old(self).well_formed(),
        ensures
            final(self).well_formed(),
            final(self).bound() == old(self).bound(),
            final(self).entries() == touched(old(self).entries(), uid@),
            match r {
                Some(value) => kept_under(old(self).entries(), uid@) == Some(value@),
                None => !has_key(old(self).entries(), uid@),
            },
    {
        proof {
            lemma_touched_keeps_form(self.entries(), uid@);
        }
        lru_get(&mut self.map, &key_of(uid))
    }

    /// What is kept for the node, without using the entry.
    pub fn peek(&self, uid: &NodeUid) -> (r: Option<String>)
        ensures
            match r {
                Some(value) => kept_under(self.entries(), uid@) == Some(value@),
                None => !has_key(self.entries(), uid@),
            },
    {
        lru_peek(&self.map, &key_of(uid))
    }

    /// Keeps `value` for the node, in place of what was kept before.
    pub fn put(&mut self, uid: &NodeUid, value: String)
        requires
            old(self).well_formed(),
        ensures
            final(self).well_formed(),
            final(self).bound() == old(self).bound(),
            final(self).entries() == with_entry(
                old(self).entries(),
                old(self).bound(),
                uid@,
                value@,
            ),
    {
        proof {
            lemma_with_entry_keeps_form(self.entries(), self.bound(), uid@, value@);
        }
        lru_put(&mut self.map, key_of(uid), value)
    }

    /// Forgets what is kept for the node.
    pub fn pop(&mut self, uid: &NodeUid)
        requires
            old(self).well_formed(),
        ensures
            final(self).well_formed(),
            final(self).bound() == old(self).bound(),
            final(self).entries() == without(old(self).entries(), uid@),
            !has_key(final(self).entries(), uid@),
    {
        proof {
            lemma_without_keeps_form(self.entries(), uid@);
        }
        lru_pop(&mut self.map, &key_of(uid))
    }

    /// Forgets everything.
    pub fn clear(&mut self)
        requires
            old(self).well_formed(),
        ensures
            final(self).well_formed(),
            final(self).bound() == old(self).bound(),
            final(self).entries() == Seq::<Entry>::empty(),
    {
        lru_clear(&mut self.map)
    }
}

fn key_of(uid: &NodeUid) -> (key: (String, String))
    ensures
        (key.0@, key.1@) == uid@,
{
    (owned(uid.volume_id.as_str()), owned(uid.link_id.as_str()))
}

/// Whether no two entries have the same key.
pub open spec fn distinct_keys(entries: Seq<Entry>) -> bool {
    forall|i: int, j: int|
        0 <= i < j < entries.len() ==> (#[trigger] entries[i]).0 != (#[trigger] entries[j]).0
}

proof fn lemma_without_keeps_form(entries: Seq<Entry>, key: (Seq<char>, Seq<char>))
    requires
        distinct_keys(entries),
    ensures
        distinct_keys(without(entries, key)),
        without(entries, key).len() <= entries.len(),
        has_key(entries, key) ==> without(entries, key).len() == entries.len() - 1,
        !has_key(without(entries, key), key),
        forall|other: (Seq<char>, Seq<char>)|
            other != key ==> #[trigger] kept_under(without(entries, key), other) == kept_under(
                entries,
                other,
            ),
{
    let rest = without(entries, key);
    if has_key(entries, key) {
        let k = slot_of(entries, key);
        assert forall|i: int| 0 <= i < rest.len() implies (#[trigger] rest[i]) == entries[if i < k {
            i
        } else {
            i + 1
        }] by {}
        assert forall|i: int| 0 <= i < rest.len() implies (#[trigger] rest[i]).0 != key by {
            let old_i = if i < k {
                i
            } else {
                i + 1
            };
            if old_i < k {
                assert(entries[old_i].0 != entries[k].0);
            } else {
                assert(entries[k].0 != entries[old_i].0);
            }
        }
        assert forall|i: int, j: int| 0 <= i < j < rest.len() implies (#[trigger] rest[i]).0 != (
        #[trigger] rest[j]).0 by {
            let old_i = if i < k {
                i
            } else {
                i + 1
            };
            let old_j = if j < k {
                j
            } else {
                j + 1
            };
            assert(entries[old_i].0 != entries[old_j].0);
        }
        assert forall|other: (Seq<char>, Seq<char>)| other != key implies #[trigger] kept_under(
            rest,
            other,
        ) == kept_under(entries, other) by {
            if has_key(entries, other) {
                let s = slot_of(entries, other);
                let moved = if s < k {
                    s
                } else {
                    s - 1
                };
                assert(rest[moved] == entries[s]);
                lemma_slot_is(rest, other, moved);
            } else if has_key(rest, other) {
                let s = slot_of(rest, other);
                let from = if s < k {
                    s
                } else {
                    s + 1
                };
                assert(entries[from] == rest[s]);
            }
        }
    }
}

proof fn lemma_slot_is(entries: Seq<Entry>, key: (Seq<char>, Seq<char>), i: int)
    requires
        distinct_keys(entries),
        0 <= i < entries.len(),
        entries[i].0 == key,
    ensures
        has_key(entries, key),
        slot_of(entries, key) == i,
        kept_under(entries, key) == Some(entries[i].1),
{
    let k = slot_of(entries, key);
    if k < i {
        assert(entries[k].0 != entries[i].0);
    } else if i < k {
        assert(entries[i].0 != entries[k].0);
    }
}

/// Putting an entry in front of others that do not have its key.
proof fn lemma_front(entry: Entry, rest: Seq<Entry>)
    requires
        distinct_keys(rest),
        !has_key(rest, entry.0),
    ensures
        distinct_keys(seq![entry] + rest),
        kept_under(seq![entry] + rest, entry.0) == Some(entry.1),
        forall|other: (Seq<char>, Seq<char>)|
            other != entry.0 ==> #[trigger] kept_under(seq![entry] + rest, other) == kept_under(
                rest,
                other,
            ),
{
    let all = seq![entry] + rest;
    assert forall|i: int, j: int| 0 <= i < j < all.len() implies (#[trigger] all[i]).0 != (
    #[trigger] all[j]).0 by {
        assert(all[j] == rest[j - 1]);
        if i > 0 {
            assert(all[i] == rest[i - 1]);
        }
    }
    assert(all[0] == entry);
    lemma_slot_is(all, entry.0, 0);
    assert forall|other: (Seq<char>, Seq<char>)| other != entry.0 implies #[trigger] kept_under(
        all,
        other,
    ) == kept_under(rest, other) by {
        if has_key(rest, other) {
            let s = slot_of(rest, other);
            assert(all[s + 1] == rest[s]);
            lemma_slot_is(all, other, s + 1);
        } else if has_key(all, other) {
            let s = slot_of(all, other);
            assert(rest[s - 1] == all[s]);
        }
    }
}

proof fn lemma_touched_keeps_form(entries: Seq<Entry>, key: (Seq<char>, Seq<char>))
    requires
        distinct_keys(entries),
    ensures
        distinct_keys(touched(entries, key)),
        touched(entries, key).len() == entries.len(),
        forall|other: (Seq<char>, Seq<char>)| #[trigger]
            kept_under(touched(entries, key), other) == kept_under(entries, other),
{
    lemma_without_keeps_form(entries, key);
    if has_key(entries, key) {
        lemma_front(entries[slot_of(entries, key)], without(entries, key));
    }
}

proof fn lemma_with_entry_keeps_form(
    entries: Seq<Entry>,
    bound: nat,
    key: (Seq<char>, Seq<char>),
    value: Seq<char>,
)
    requires
        distinct_keys(entries),
        entries.len() <= bound,
        bound > 0,
    ensures
        distinct_keys(with_entry(entries, bound, key, value)),
        with_entry(entries, bound, key, value).len() <= bound,
        kept_under(with_entry(entries, bound, key, value), key) == Some(value),
{
    lemma_without_keeps_form(entries, key);
    if has_key(entries, key) {
        lemma_front((key, value), without(entries, key));
    } else if entries.len() == bound {
        let rest = entries.drop_last();
        assert forall|i: int| 0 <= i < rest.len() implies (#[trigger] rest[i]).0 != key by {
            assert(rest[i] == entries[i]);
        }
        assert(distinct_keys(rest)) by {
            assert forall|i: int, j: int| 0 <= i < j < rest.len() implies (#[trigger] rest[i]).0
                != (#[trigger] rest[j]).0 by {
                assert(rest[i] == entries[i] && rest[j] == entries[j]);
            }
        }
        lemma_front((key, value), rest);
    } else {
        lemma_front((key, value), entries);
    }
}

/// What was put under a key is read back, until something else is put there, it is
/// forgotten, or it has to make room.
pub proof fn law_put_is_read_back(
    cache: NodeCache,
    key: (Seq<char>, Seq<char>),
    value: Seq<char>,
)
    requires
        cache.well_formed(),
    ensures
        kept_under(with_entry(cache.entries(), cache.bound(), key, value), key) == Some(value),
        with_entry(cache.entries(), cache.bound(), key, value).len() <= cache.bound(),
{
    lemma_with_entry_keeps_form(cache.entries(), cache.bound(), key, value);
}

/// Keeping something for a node makes its entry the one used last, and pushes out at most
/// one other: the one that was not used for longest, and only where the cache is full.
pub proof fn law_put_keeps_the_others(
    cache: NodeCache,
    key: (Seq<char>, Seq<char>),
    value: Seq<char>,
    other: (Seq<char>, Seq<char>),
)
    requires
        cache.well_formed(),
        other != key,
        has_key(cache.entries(), other),
    ensures
        with_entry(cache.entries(), cache.bound(), key, value)[0] == (key, value),
        has_key(cache.entries(), key) || cache.entries().len() < cache.bound()
            || cache.entries().last().0 != other ==> kept_under(
            with_entry(cache.entries(), cache.bound(), key, value),
            other,
        ) == kept_under(cache.entries(), other),
        !has_key(cache.entries(), key) && cache.entries().len() == cache.bound()
            && cache.entries().last().0 == other ==> kept_under(
            with_entry(cache.entries(), cache.bound(), key, value),
            other,
        ) is None,
{
    let entries = cache.entries();
    let after = with_entry(entries, cache.bound(), key, value);
    let p = slot_of(entries, other);
    assert(entries[p].0 == other);
    if has_key(entries, key) {
        let k = slot_of(entries, key);
        let at = if p < k {
            p + 1
        } else {
            p
        };
        assert(after[at] == entries[p]);
        lemma_slot(after, other, at);
    } else if entries.len() == cache.bound() {
        if p < entries.len() - 1 {
            assert(after[p + 1] == entries[p]);
            lemma_slot(after, other, p + 1);
            assert(entries[p].0 != entries[entries.len() - 1].0);
        } else {
            assert forall|i: int| 0 <= i < after.len() implies (#[trigger] after[i]).0
                != other by {
                if i > 0 {
                    assert(after[i] == entries[i - 1]);
                }
            }
        }
    } else {
        assert(after[p + 1] == entries[p]);
        lemma_slot(after, other, p + 1);
    }
}

proof fn lemma_slot(entries: Seq<Entry>, key: (Seq<char>, Seq<char>), at: int)
    requires
        0 <= at < entries.len(),
        entries[at].0 == key,
    ensures
        has_key(entries, key),
{
}

/// Forgetting one node leaves what is kept for every other node as it was.
pub proof fn law_forgetting_one_keeps_the_others(
    cache: NodeCache,
    key: (Seq<char>, Seq<char>),
    other: (Seq<char>, Seq<char>),
)
    requires
        cache.well_formed(),
        other != key,
    ensures
        kept_under(without(cache.entries(), key), other) == kept_under(cache.entries(), other),
{
    lemma_without_keeps_form(cache.entries(), key);
}

/// What was forgotten is not kept any more.
pub proof fn law_forgotten_is_gone(cache: NodeCache, key: (Seq<char>, Seq<char>))
    requires
        cache.well_formed(),
    ensures
        kept_under(without(cache.entries(), key), key) is None,
{
    lemma_without_keeps_form(cache.entries(), key);
}

/// A hit changes nothing of what is kept, and saves the entry from making room for
/// the next one: after it, something new can be put into a full cache of more than
/// one entry and the entry is still there.
pub proof fn law_a_hit_saves_the_entry(
    cache: NodeCache,
    key: (Seq<char>, Seq<char>),
    fresh: (Seq<char>, Seq<char>),
    value: Seq<char>,
)
    requires
        cache.well_formed(),
        cache.bound() > 1,
        has_key(cache.entries(), key),
        fresh != key,
    ensures
        kept_under(touched(cache.entries(), key), key) == kept_under(cache.entries(), key),
        kept_under(
            with_entry(touched(cache.entries(), key), cache.bound(), fresh, value),
            key,
        ) == kept_under(cache.entries(), key),
{
    let entries = cache.entries();
    let after = touched(entries, key);
    lemma_touched_keeps_form(entries, key);
    lemma_with_entry_keeps_form(after, cache.bound(), fresh, value);
    let last = with_entry(after, cache.bound(), fresh, value);
    assert(after[0] == entries[slot_of(entries, key)]);
    lemma_slot_is(after, key, 0);
    if has_key(after, fresh) {
        lemma_without_keeps_form(after, fresh);
        lemma_front((fresh, value), without(after, fresh));
    } else {
        assert(last[1] == after[0]);
        lemma_slot_is(last, key, 1);
    }
}

} // verus!
