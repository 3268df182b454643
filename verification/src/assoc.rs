//! Association lists with `String` keys, read as finite maps.
//!
//! The keyed containers of this crate store their entries in a `Vec` of
//! key/value pairs whose keys are pairwise distinct.  This module gives that
//! representation its mathematical reading — a `Map` from key characters to
//! values — and proves how the reading moves under the `Vec` operations the
//! containers use.

use vstd::prelude::*;

verus! {

/// The map that an association list denotes.  A later pair wins over an
/// earlier one with the same key, as repeated insertion would.
pub open spec fn map_of<V>(s: Seq<(String, V)>) -> Map<Seq<char>, V>
    decreases s.len(),
{
    if s.len() == 0 {
        Map::empty()
    } else {
        map_of(s.drop_last()).insert(s.last().0@, s.last().1)
    }
}

/// No two pairs of the list share a key.
pub open spec fn keys_distinct<V>(s: Seq<(String, V)>) -> bool {
    forall|i: int, j: int| 0 <= i < j < s.len() ==> s[i].0@ != s[j].0@
}

/// A key is in the map exactly when some pair of the list carries it.
pub proof fn lemma_map_of_dom<V>(s: Seq<(String, V)>, k: Seq<char>)
    ensures
        map_of(s).dom().contains(k) <==> exists|i: int| 0 <= i < s.len() && s[i].0@ == k,
    decreases s.len(),
{
    if s.len() > 0 {
        lemma_map_of_dom(s.drop_last(), k);
        if map_of(s).dom().contains(k) {
            if s.last().0@ != k {
                let i = choose|i: int| 0 <= i < s.drop_last().len() && s.drop_last()[i].0@ == k;
                assert(s[i].0@ == k);
            }
        }
        if exists|i: int| 0 <= i < s.len() && s[i].0@ == k {
            let i = choose|i: int| 0 <= i < s.len() && s[i].0@ == k;
            if i < s.len() - 1 {
                assert(s.drop_last()[i].0@ == k);
            }
        }
    }
}

/// The map is finite and has exactly one member per pair of the list.
pub proof fn lemma_map_of_len<V>(s: Seq<(String, V)>)
    requires
        keys_distinct(s),
    ensures
        map_of(s).dom().finite(),
        map_of(s).dom().len() == s.len(),
    decreases s.len(),
{
    if s.len() > 0 {
        lemma_map_of_len(s.drop_last());
        lemma_map_of_dom(s.drop_last(), s.last().0@);
    }
}

/// With distinct keys, the pair at any index gives the map's value at its key.
pub proof fn lemma_map_of_index<V>(s: Seq<(String, V)>, i: int)
    requires
        keys_distinct(s),
        0 <= i < s.len(),
    ensures
        map_of(s).dom().contains(s[i].0@),
        map_of(s)[s[i].0@] == s[i].1,
    decreases s.len(),
{
    if i < s.len() - 1 {
        lemma_map_of_index(s.drop_last(), i);
        assert(s.drop_last()[i] == s[i]);
    }
}

/// Removing the pair at an index removes exactly its key from the map.
pub proof fn lemma_map_of_remove<V>(s: Seq<(String, V)>, i: int)
    requires
        keys_distinct(s),
        0 <= i < s.len(),
    ensures
        keys_distinct(s.remove(i)),
        map_of(s.remove(i)) == map_of(s).remove(s[i].0@),
    decreases s.len(),
{
    lemma_map_of_dom(s, s[i].0@);
    if i == s.len() - 1 {
        assert(s.remove(i) =~= s.drop_last());
        lemma_map_of_dom(s.drop_last(), s[i].0@);
        assert(!map_of(s.drop_last()).dom().contains(s[i].0@));
        assert(map_of(s.remove(i)) =~= map_of(s).remove(s[i].0@));
    } else {
        lemma_map_of_remove(s.drop_last(), i);
        assert(s.remove(i).drop_last() =~= s.drop_last().remove(i));
        assert(s.remove(i).last() == s.last());
        assert(map_of(s.remove(i)) =~= map_of(s).remove(s[i].0@));
    }
}

/// Appending a pair inserts its key into the map.
pub proof fn lemma_map_of_push<V>(s: Seq<(String, V)>, p: (String, V))
    ensures
        map_of(s.push(p)) == map_of(s).insert(p.0@, p.1),
{
    assert(s.push(p).drop_last() =~= s);
}

} // verus!
