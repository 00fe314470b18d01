//! Association lists keyed by 128-bit worker identifiers, viewed as maps.
//!
//! The registry stores its two worker-indexed tables as vectors of pairs.
//! This module gives those vectors a `Map` view and proves how the usual
//! table operations (lookup, insert, update, remove) act on that view.

use vstd::prelude::*;

verus! {

use vstd::map::*;

/// True when some entry of `s` carries key `k`.
pub open spec fn has_key<V>(s: Seq<(u128, V)>, k: u128) -> bool {
    exists|i: int| 0 <= i < s.len() && s[i].0 == k
}

/// The value paired with key `k`; meaningful only when `has_key(s, k)`.
pub open spec fn value_of<V>(s: Seq<(u128, V)>, k: u128) -> V {
    s[choose|i: int| 0 <= i < s.len() && s[i].0 == k].1
}

/// The association list `s` read as a map from keys to values.
pub open spec fn map_of<V>(s: Seq<(u128, V)>) -> Map<u128, V> {
    Map::new(|k: u128| has_key(s, k), |k: u128| value_of(s, k))
}

/// No key occurs in two distinct entries of `s`.
pub open spec fn distinct_keys<V>(s: Seq<(u128, V)>) -> bool {
    forall|i: int, j: int| 0 <= i < j < s.len() ==> s[i].0 != s[j].0
}

/// With distinct keys, the entry at index `i` is what the map view returns.
pub proof fn lemma_value_at<V>(s: Seq<(u128, V)>, i: int)
    requires
        distinct_keys(s),
        0 <= i < s.len(),
    ensures
        has_key(s, s[i].0),
        map_of(s).contains_key(s[i].0),
        value_of(s, s[i].0) == s[i].1,
        map_of(s)[s[i].0] == s[i].1,
{
    let k = s[i].0;
    assert(has_key(s, k));
    let j = choose|j: int| 0 <= j < s.len() && s[j].0 == k;
    if i < j {
        assert(s[i].0 != s[j].0);
    } else if j < i {
        assert(s[j].0 != s[i].0);
    }
}

/// Appending an entry with a fresh key inserts it into the map view.
pub proof fn lemma_push_new<V>(s: Seq<(u128, V)>, k: u128, v: V)
    requires
        distinct_keys(s),
        !has_key(s, k),
    ensures
        distinct_keys(s.push((k, v))),
        map_of(s.push((k, v))) == map_of(s).insert(k, v),
{
    let t = s.push((k, v));
    assert forall|i: int, j: int| 0 <= i < j < t.len() implies t[i].0 != t[j].0 by {
        if j < s.len() {
            assert(s[i].0 != s[j].0);
        } else {
            assert(t[j] == (k, v));
            if t[i].0 == k {
                assert(has_key(s, k));
            }
        }
    }
    assert_maps_equal!(map_of(t), map_of(s).insert(k, v), key => {
        if key == k {
            assert(t[s.len() as int].0 == k);
            lemma_value_at(t, s.len() as int);
        } else {
            if has_key(s, key) {
                let i = choose|i: int| 0 <= i < s.len() && s[i].0 == key;
                assert(t[i].0 == key);
                lemma_value_at(t, i);
                lemma_value_at(s, i);
            }
            if has_key(t, key) {
                let i = choose|i: int| 0 <= i < t.len() && t[i].0 == key;
                assert(i < s.len());
                assert(s[i].0 == key);
                lemma_value_at(t, i);
                lemma_value_at(s, i);
            }
        }
    });
}

/// Overwriting the value at index `i` updates the map view at that key.
pub proof fn lemma_update_value<V>(s: Seq<(u128, V)>, i: int, k: u128, v: V)
    requires
        distinct_keys(s),
        0 <= i < s.len(),
        s[i].0 == k,
    ensures
        distinct_keys(s.update(i, (k, v))),
        map_of(s.update(i, (k, v))) == map_of(s).insert(k, v),
{
    let t = s.update(i, (k, v));
    assert forall|p: int, q: int| 0 <= p < q < t.len() implies t[p].0 != t[q].0 by {
        assert(s[p].0 != s[q].0);
    }
    assert_maps_equal!(map_of(t), map_of(s).insert(k, v), key => {
        if key == k {
            assert(t[i].0 == k);
            lemma_value_at(t, i);
        } else {
            if has_key(s, key) {
                let p = choose|p: int| 0 <= p < s.len() && s[p].0 == key;
                assert(t[p].0 == key);
                lemma_value_at(t, p);
                lemma_value_at(s, p);
            }
            if has_key(t, key) {
                let p = choose|p: int| 0 <= p < t.len() && t[p].0 == key;
                assert(s[p].0 == key);
                lemma_value_at(t, p);
                lemma_value_at(s, p);
            }
        }
    });
}

/// Removing the entry at index `i` removes its key from the map view.
pub proof fn lemma_remove_entry<V>(s: Seq<(u128, V)>, i: int)
    requires
        distinct_keys(s),
        0 <= i < s.len(),
    ensures
        distinct_keys(s.remove(i)),
        map_of(s.remove(i)) == map_of(s).remove(s[i].0),
{
    let k = s[i].0;
    let t = s.remove(i);
    assert forall|p: int, q: int| 0 <= p < q < t.len() implies t[p].0 != t[q].0 by {
        let p0: int = if p < i { p } else { p + 1 };
        let q0: int = if q < i { q } else { q + 1 };
        assert(t[p] == s[p0]);
        assert(t[q] == s[q0]);
        assert(s[p0].0 != s[q0].0);
    }
    assert_maps_equal!(map_of(t), map_of(s).remove(k), key => {
        if key != k {
            if has_key(s, key) {
                let p = choose|p: int| 0 <= p < s.len() && s[p].0 == key;
                let p1: int = if p < i { p } else { p - 1 };
                assert(t[p1] == s[p]);
                lemma_value_at(t, p1);
                lemma_value_at(s, p);
            }
            if has_key(t, key) {
                let p = choose|p: int| 0 <= p < t.len() && t[p].0 == key;
                let p0: int = if p < i { p } else { p + 1 };
                assert(t[p] == s[p0]);
                lemma_value_at(t, p);
                lemma_value_at(s, p0);
            }
        } else {
            if has_key(t, k) {
                let p = choose|p: int| 0 <= p < t.len() && t[p].0 == k;
                let p0: int = if p < i { p } else { p + 1 };
                assert(t[p] == s[p0]);
                assert(p0 != i);
                if p0 < i {
                    assert(s[p0].0 != s[i].0);
                } else {
                    assert(s[i].0 != s[p0].0);
                }
            }
        }
    });
}

/// Index of the entry carrying key `k`, if any.
pub fn find_key<V>(v: &Vec<(u128, V)>, k: u128) -> (r: Option<usize>)
    ensures
        match r {
            Some(i) => i < v.len() && v@[i as int].0 == k,
            None => !has_key(v@, k),
        },
{
    let mut i: usize = 0;
    while i < v.len()
        invariant
            i <= v.len(),
            forall|j: int| 0 <= j < i ==> v@[j].0 != k,
        decreases v.len() - i,
    {
        if v[i].0 == k {
            return Some(i);
        }
        i += 1;
    }
    None
}

} // verus!
