//! Looking up the first element of a list by its key.

use vstd::prelude::*;

verus! {

/// A value that is found by a key.
pub trait Keyed {
    spec fn key(&self) -> u64;
}

/// Whether `i` is the place of the first element of `s` with the key `k`.
pub open spec fn is_first<T: Keyed>(s: Seq<T>, k: u64, i: int) -> bool {
    &&& 0 <= i < s.len()
    &&& s[i].key() == k
    &&& forall|j: int| 0 <= j < i ==> (#[trigger] s[j]).key() != k
}

/// The place of the first element of `s` with the key `k`, if there is one.
pub open spec fn find<T: Keyed>(s: Seq<T>, k: u64) -> Option<int> {
    if exists|i: int| is_first(s, k, i) {
        Some(choose|i: int| is_first(s, k, i))
    } else {
        None
    }
}

/// Whether no key occurs twice in `s`.
pub open spec fn distinct_keys<T: Keyed>(s: Seq<T>) -> bool {
    forall|i: int, j: int|
        0 <= i < j < s.len() ==> (#[trigger] s[i]).key() != (#[trigger] s[j]).key()
}

/// The first place with the key is the place that `find` gives.
pub proof fn lemma_find_some<T: Keyed>(s: Seq<T>, k: u64, i: int)
    requires
        is_first(s, k, i),
    ensures
        find(s, k) == Some(i),
{
    let c = choose|c: int| is_first(s, k, c);
    assert(c == i) by {
        if c < i {
            assert(s[c].key() != k);
        } else if i < c {
            assert(s[i].key() != k);
        }
    }
}

/// Where no element has the key, `find` gives nothing.
pub proof fn lemma_find_none<T: Keyed>(s: Seq<T>, k: u64)
    requires
        forall|j: int| 0 <= j < s.len() ==> (#[trigger] s[j]).key() != k,
    ensures
        find(s, k) is None,
{
}

proof fn lemma_first_exists<T: Keyed>(s: Seq<T>, k: u64, j: int)
    requires
        0 <= j < s.len(),
        s[j].key() == k,
    ensures
        exists|i: int| is_first(s, k, i),
    decreases j,
{
    if exists|m: int| 0 <= m < j && (#[trigger] s[m]).key() == k {
        let m = choose|m: int| 0 <= m < j && (#[trigger] s[m]).key() == k;
        lemma_first_exists(s, k, m);
    } else {
        assert(is_first(s, k, j));
    }
}

/// What `find` gives is the first place with the key; it gives nothing only where no
/// element has the key.
pub proof fn lemma_find_found<T: Keyed>(s: Seq<T>, k: u64)
    ensures
        find(s, k) matches Some(i) ==> is_first(s, k, i),
        find(s, k) is None ==> forall|j: int| 0 <= j < s.len() ==> (#[trigger] s[j]).key() != k,
{
    if find(s, k) is None {
        assert forall|j: int| 0 <= j < s.len() implies (#[trigger] s[j]).key() != k by {
            if s[j].key() == k {
                lemma_first_exists(s, k, j);
            }
        }
    }
}

} // verus!
