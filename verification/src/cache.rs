//! The time-to-live cache: an in-memory map from string keys to values,
//! where each entry remembers the instant it was written and is reported by
//! reads only while the elapsed time since that write is strictly below the
//! configured time-to-live.
//!
//! Reads never evict.  An entry that has outlived the time-to-live stays in
//! storage — a read simply reports absence — until `delete`, `clear`, or the
//! explicit `cleanup_expired` sweep removes it.
//!
//! Instants are whole milliseconds.  The functions whose names end in `_at`
//! take the reading of the clock as an argument and are deterministic in it;
//! `get`, `set` and `cleanup_expired` read the wall clock themselves and
//! promise only what holds for every possible reading.

use vstd::prelude::*;

use crate::assoc::{
    keys_distinct, lemma_map_of_dom, lemma_map_of_index, lemma_map_of_len, lemma_map_of_push,
    lemma_map_of_remove, map_of,
};
use crate::shims::{now_millis, str_eq};

verus! {

/// A stored value together with the instant (in milliseconds) it was written
/// or last overwritten.
pub struct CacheEntry<V> {
    pub stamp_millis: u64,
    pub value: V,
}

/// Milliseconds elapsed from `stamp` to `now`, reading a clock that went
/// backwards as no time having passed.
pub open spec fn elapsed_millis(stamp: u64, now: u64) -> int {
    if now >= stamp {
        now - stamp
    } else {
        0
    }
}

/// An entry written at `stamp` is live at `now` exactly when the elapsed
/// time is strictly below the time-to-live.  A zero time-to-live therefore
/// makes every entry stale from the moment it is written.
pub open spec fn live_at(stamp: u64, ttl: u64, now: u64) -> bool {
    elapsed_millis(stamp, now) < ttl
}

/// What a read at instant `now` reports: the stored value if the key is
/// present and its entry is live, absence otherwise.
pub open spec fn lookup_live<V>(
    m: Map<Seq<char>, CacheEntry<V>>,
    ttl: u64,
    k: Seq<char>,
    now: u64,
) -> Option<V> {
    if m.dom().contains(k) && live_at(m[k].stamp_millis, ttl, now) {
        Some(m[k].value)
    } else {
        None
    }
}

/// The map after a sweep at instant `now`: exactly the live entries remain,
/// unchanged.
pub open spec fn swept<V>(m: Map<Seq<char>, CacheEntry<V>>, ttl: u64, now: u64) -> Map<
    Seq<char>,
    CacheEntry<V>,
> {
    Map::new(
        |k: Seq<char>| m.dom().contains(k) && live_at(m[k].stamp_millis, ttl, now),
        |k: Seq<char>| m[k],
    )
}

/// True when the entry written at `stamp` is live at `now`.
fn is_live(stamp: u64, ttl: u64, now: u64) -> (r: bool)
    ensures
        r == live_at(stamp, ttl, now),
{
    let elapsed: u64 = if now >= stamp {
        now - stamp
    } else {
        0
    };
    elapsed < ttl
}

/// The entries that a sweep of the list at instant `now` keeps, in order.
spec fn swept_seq<V>(s: Seq<(String, CacheEntry<V>)>, ttl: u64, now: u64) -> Seq<
    (String, CacheEntry<V>),
>
    decreases s.len(),
{
    if s.len() == 0 {
        Seq::empty()
    } else if live_at(s.last().1.stamp_millis, ttl, now) {
        swept_seq(s.drop_last(), ttl, now).push(s.last())
    } else {
        swept_seq(s.drop_last(), ttl, now)
    }
}

/// Sweeping the list is, on the map it denotes, keeping the live entries.
proof fn lemma_swept_seq<V>(s: Seq<(String, CacheEntry<V>)>, ttl: u64, now: u64)
    requires
        keys_distinct(s),
    ensures
        keys_distinct(swept_seq(s, ttl, now)),
        map_of(swept_seq(s, ttl, now)) == swept(map_of(s), ttl, now),
        forall|j: int|
            0 <= j < swept_seq(s, ttl, now).len() ==> exists|j2: int|
                0 <= j2 < s.len() && #[trigger] swept_seq(s, ttl, now)[j] == s[j2],
    decreases s.len(),
{
    if s.len() == 0 {
        assert(map_of(swept_seq(s, ttl, now)) =~= swept(map_of(s), ttl, now));
    } else {
        let d = s.drop_last();
        lemma_swept_seq(d, ttl, now);
        lemma_map_of_dom(d, s.last().0@);
        assert(forall|j2: int| 0 <= j2 < d.len() ==> d[j2] == s[j2]);
        if live_at(s.last().1.stamp_millis, ttl, now) {
            lemma_map_of_push(swept_seq(d, ttl, now), s.last());
            assert(forall|j: int|
                0 <= j < swept_seq(d, ttl, now).len() ==> swept_seq(d, ttl, now)[j].0@
                    != s.last().0@) by {
                assert forall|j: int|
                    0 <= j < swept_seq(d, ttl, now).len() implies swept_seq(d, ttl, now)[j].0@
                    != s.last().0@ by {
                    let j2 = choose|j2: int|
                        0 <= j2 < d.len() && swept_seq(d, ttl, now)[j] == d[j2];
                }
            }
            assert(map_of(swept_seq(s, ttl, now)) =~= swept(map_of(s), ttl, now));
        } else {
            assert(map_of(swept_seq(s, ttl, now)) =~= swept(map_of(s), ttl, now));
        }
    }
}

/// The cache: a list of keyed entries with pairwise-distinct keys, and the
/// time-to-live fixed at construction.
pub struct CacheService<V: Clone> {
    ttl_millis: u64,
    entries: Vec<(String, CacheEntry<V>)>,
}

impl<V: Clone> View for CacheService<V> {
    type V = Map<Seq<char>, CacheEntry<V>>;

    closed spec fn view(&self) -> Map<Seq<char>, CacheEntry<V>> {
        map_of(self.entries@)
    }
}

impl<V: Clone> CacheService<V> {
    /// The time-to-live this cache was constructed with, in milliseconds.
    pub closed spec fn spec_ttl(&self) -> u64 {
        self.ttl_millis
    }

    /// The stored entries carry pairwise-distinct keys.
    pub closed spec fn wf(&self) -> bool {
        keys_distinct(self.entries@)
    }

    /// A new, empty cache with the given time-to-live in milliseconds.
    pub fn new(ttl_millis: u64) -> (r: Self)
        ensures
            r.wf(),
            r@ == Map::<Seq<char>, CacheEntry<V>>::empty(),
            r.spec_ttl() == ttl_millis,
    {
        CacheService { ttl_millis, entries: Vec::new() }
    }

    /// The index of the entry holding `key`, if one does.
    fn find_index(&self, key: &str) -> (r: Option<usize>)
        ensures
            match r {
                Some(i) => i < self.entries@.len() && self.entries@[i as int].0@ == key@,
                None => forall|j: int| 0 <= j < self.entries@.len() ==> self.entries@[j].0@ != key@,
            },
    {
        let mut i: usize = 0;
        while i < self.entries.len()
            invariant
                i <= self.entries@.len(),
                forall|j: int| 0 <= j < i ==> self.entries@[j].0@ != key@,
            decreases self.entries@.len() - i,
        {
            if str_eq(self.entries[i].0.as_str(), key) {
                return Some(i);
            }
            i = i + 1;
        }
        None
    }

    /// A read at the given instant: the stored value if the key is present
    /// and live, absence otherwise.  The map is not changed — in particular
    /// an expired entry is not evicted by being read.
    pub fn get_at(&self, key: &str, now_millis: u64) -> (r: Option<V>)
        requires
            self.wf(),
        ensures
            match lookup_live(self@, self.spec_ttl(), key@, now_millis) {
                Some(v) => r matches Some(c) && cloned::<V>(v, c),
                None => r is None,
            },
    {
        match self.find_index(key) {
            Some(i) => {
                proof {
                    lemma_map_of_index(self.entries@, i as int);
                }
                let entry = &self.entries[i].1;
                if is_live(entry.stamp_millis, self.ttl_millis, now_millis) {
                    Some(entry.value.clone())
                } else {
                    None
                }
            },
            None => {
                proof {
                    lemma_map_of_dom(self.entries@, key@);
                }
                None
            },
        }
    }

    /// A write at the given instant: inserts or replaces the entry for the
    /// key, stamped with that instant.
    pub fn set_at(&mut self, key: String, value: V, now_millis: u64)
        requires
            old(self).wf(),
        ensures
            final(self).wf(),
            final(self)@ == old(self)@.insert(
                key@,
                (CacheEntry { stamp_millis: now_millis, value }),
            ),
            final(self).spec_ttl() == old(self).spec_ttl(),
    {
        let ghost orig = self.entries@;
        let idx = self.find_index(key.as_str());
        let entry = CacheEntry { stamp_millis: now_millis, value };
        match idx {
            Some(i) => {
                proof {
                    lemma_map_of_index(orig, i as int);
                    lemma_map_of_remove(orig, i as int);
                }
                let _ = self.entries.remove(i);
                proof {
                    assert forall|j: int|
                        0 <= j < self.entries@.len() implies self.entries@[j].0@ != key@ by {
                        if j < i {
                            assert(self.entries@[j] == orig[j]);
                        } else {
                            assert(self.entries@[j] == orig[j + 1]);
                        }
                    }
                }
                self.entries.push((key, entry));
                proof {
                    lemma_map_of_push(orig.remove(i as int), (key, entry));
                    assert(map_of(self.entries@) =~= map_of(orig).insert(key@, entry));
                }
            },
            None => {
                self.entries.push((key, entry));
                proof {
                    lemma_map_of_push(orig, (key, entry));
                }
            },
        }
    }

    /// Removes the entry for the key if one is stored — live or expired
    /// alike — and reports whether a removal occurred.
    pub fn delete(&mut self, key: &str) -> (r: bool)
        requires
            old(self).wf(),
        ensures
            final(self).wf(),
            final(self)@ == old(self)@.remove(key@),
            r == old(self)@.dom().contains(key@),
            final(self).spec_ttl() == old(self).spec_ttl(),
    {
        let ghost orig = self.entries@;
        match self.find_index(key) {
            Some(i) => {
                proof {
                    lemma_map_of_index(orig, i as int);
                    lemma_map_of_remove(orig, i as int);
                }
                let _ = self.entries.remove(i);
                true
            },
            None => {
                proof {
                    lemma_map_of_dom(orig, key@);
                    assert(map_of(orig).remove(key@) =~= map_of(orig));
                }
                false
            },
        }
    }

    /// Removes every entry unconditionally.
    pub fn clear(&mut self)
        ensures
            final(self).wf(),
            final(self)@ == Map::<Seq<char>, CacheEntry<V>>::empty(),
            final(self).spec_ttl() == old(self).spec_ttl(),
    {
        self.entries.clear();
    }

    /// A sweep at the given instant: removes exactly the entries that are no
    /// longer live and returns how many were removed.
    pub fn cleanup_expired_at(&mut self, now_millis: u64) -> (r: usize)
        requires
            old(self).wf(),
        ensures
            final(self).wf(),
            final(self)@ == swept(old(self)@, old(self).spec_ttl(), now_millis),
            r + final(self)@.dom().len() == old(self)@.dom().len(),
            final(self).spec_ttl() == old(self).spec_ttl(),
    {
        let ghost orig = self.entries@;
        let n = self.entries.len();
        let ttl = self.ttl_millis;
        let mut kept: Vec<(String, CacheEntry<V>)> = Vec::new();
        let mut removed: usize = 0;
        let ghost mut i: int = 0;
        while self.entries.len() > 0
            invariant
                0 <= i <= n,
                n == orig.len(),
                ttl == old(self).spec_ttl(),
                self.ttl_millis == old(self).spec_ttl(),
                self.entries@ == orig.subrange(i, n as int),
                kept@ == swept_seq(orig.take(i), ttl, now_millis),
                removed + kept@.len() == i,
            decreases self.entries@.len(),
        {
            let pair = self.entries.remove(0);
            proof {
                assert(pair == orig[i]);
                assert(self.entries@ =~= orig.subrange(i + 1, n as int));
                assert(orig.take(i + 1).drop_last() =~= orig.take(i));
                assert(orig.take(i + 1).last() == orig[i]);
            }
            let live = is_live(pair.1.stamp_millis, ttl, now_millis);
            if live {
                kept.push(pair);
            } else {
                removed = removed + 1;
            }
            proof {
                i = i + 1;
            }
        }
        proof {
            assert(i == n);
            assert(orig.take(n as int) =~= orig);
            lemma_swept_seq(orig, ttl, now_millis);
            lemma_map_of_len(orig);
            lemma_map_of_len(swept_seq(orig, ttl, now_millis));
        }
        self.entries = kept;
        removed
    }

    /// A read at the instant the wall clock shows now: the result is exactly
    /// the live lookup at some instant.  Whatever the clock reads, a
    /// reported value is (a clone of) the one stored under the key, an
    /// absent key reports absence, and a zero time-to-live reports absence
    /// always.
    pub fn get(&self, key: &str) -> (r: Option<V>)
        requires
            self.wf(),
        ensures
            exists|t: u64|
                #![trigger lookup_live(self@, self.spec_ttl(), key@, t)]
                match lookup_live(self@, self.spec_ttl(), key@, t) {
                    Some(v) => r matches Some(c) && cloned::<V>(v, c),
                    None => r is None,
                },
            r matches Some(c) ==> self@.dom().contains(key@) && cloned::<V>(
                self@[key@].value,
                c,
            ),
            !self@.dom().contains(key@) ==> r is None,
            self.spec_ttl() == 0 ==> r is None,
    {
        let now = now_millis();
        self.get_at(key, now)
    }

    /// A write stamped with the instant the wall clock shows now.
    pub fn set(&mut self, key: String, value: V)
        requires
            old(self).wf(),
        ensures
            final(self).wf(),
            final(self).spec_ttl() == old(self).spec_ttl(),
            exists|t: u64|
                final(self)@ == old(self)@.insert(
                    key@,
                    (CacheEntry { stamp_millis: t, value }),
                ),
    {
        let now = now_millis();
        self.set_at(key, value, now);
    }

    /// The view of a well-formed cache is a finite map, so its domain has a
    /// cardinality — which the count clause of the sweep and the sweep laws
    /// speak of.
    pub proof fn lemma_dom_finite(&self)
        requires
            self.wf(),
        ensures
            self@.dom().finite(),
    {
        lemma_map_of_len(self.entries@);
    }

    /// A sweep at the instant the wall clock shows now: whatever the clock
    /// reads, exactly the entries live at that instant remain, and the
    /// count returned is the number removed.
    pub fn cleanup_expired(&mut self) -> (r: usize)
        requires
            old(self).wf(),
        ensures
            final(self).wf(),
            final(self).spec_ttl() == old(self).spec_ttl(),
            r + final(self)@.dom().len() == old(self)@.dom().len(),
            exists|t: u64| final(self)@ == swept(old(self)@, old(self).spec_ttl(), t),
    {
        let now = now_millis();
        self.cleanup_expired_at(now)
    }
}

/// A value written at `t_set` is read back at any `t_read` within the
/// time-to-live: writing and then looking the key up yields that value.
pub proof fn lemma_set_then_get<V>(
    m: Map<Seq<char>, CacheEntry<V>>,
    ttl: u64,
    k: Seq<char>,
    v: V,
    t_set: u64,
    t_read: u64,
)
    requires
        elapsed_millis(t_set, t_read) < ttl,
    ensures
        lookup_live(m.insert(k, (CacheEntry { stamp_millis: t_set, value: v })), ttl, k, t_read)
            == Some(v),
{
}

/// After a key is removed, a read of it reports absence — at every instant —
/// and the key is no longer stored, so removing it again removes nothing.
pub proof fn lemma_delete_then_get<V>(
    m: Map<Seq<char>, CacheEntry<V>>,
    ttl: u64,
    k: Seq<char>,
    now: u64,
)
    ensures
        lookup_live(m.remove(k), ttl, k, now) is None,
        !m.remove(k).dom().contains(k),
{
}

/// After the map is cleared, a read of any key at any instant reports
/// absence.
pub proof fn lemma_clear_then_get<V>(ttl: u64, k: Seq<char>, now: u64)
    ensures
        lookup_live(Map::<Seq<char>, CacheEntry<V>>::empty(), ttl, k, now) is None,
{
}

/// Sweeping is idempotent: a second sweep at the same instant, with no
/// intervening write, leaves the map as it is and so removes zero entries.
pub proof fn lemma_cleanup_idempotent<V>(m: Map<Seq<char>, CacheEntry<V>>, ttl: u64, now: u64)
    ensures
        swept(swept(m, ttl, now), ttl, now) == swept(m, ttl, now),
        swept(m, ttl, now).dom().len() == swept(swept(m, ttl, now), ttl, now).dom().len(),
{
    assert(swept(swept(m, ttl, now), ttl, now) =~= swept(m, ttl, now));
}

/// A stored entry whose time-to-live has elapsed: a read reports absence
/// even though the entry is still stored (so a removal would still find it),
/// a sweep at that instant removes it — removing at least one entry — and a
/// read after the sweep still reports absence.
pub proof fn lemma_expired_read_and_sweep<V>(
    m: Map<Seq<char>, CacheEntry<V>>,
    ttl: u64,
    k: Seq<char>,
    now: u64,
)
    requires
        m.dom().finite(),
        m.dom().contains(k),
        elapsed_millis(m[k].stamp_millis, now) >= ttl,
    ensures
        lookup_live(m, ttl, k, now) is None,
        !swept(m, ttl, now).dom().contains(k),
        swept(m, ttl, now).dom().len() < m.dom().len(),
        lookup_live(swept(m, ttl, now), ttl, k, now) is None,
{
    let sw = swept(m, ttl, now).dom();
    assert(sw.subset_of(m.dom().remove(k)));
    vstd::set_lib::lemma_len_subset(sw, m.dom().remove(k));
}

} // verus!
