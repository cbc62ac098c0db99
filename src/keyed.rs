//! Keyed lists: sequences of (key, value) pairs read like maps, where the
//! last pair with a given key is the one that counts.

use vstd::prelude::*;
use crate::order::same_text;

verus! {

/// The position of the last pair whose key is `k`.
pub open spec fn last_index<V>(s: Seq<(Seq<char>, V)>, k: Seq<char>) -> Option<int>
    decreases s.len(),
{
    if s.len() == 0 {
        None
    } else if s.last().0 == k {
        Some(s.len() - 1)
    } else {
        last_index(s.drop_last(), k)
    }
}

/// The value stored under `k`.
pub open spec fn lookup<V>(s: Seq<(Seq<char>, V)>, k: Seq<char>) -> Option<V> {
    match last_index(s, k) {
        Some(i) => Some(s[i].1),
        None => None,
    }
}

pub open spec fn has_key<V>(s: Seq<(Seq<char>, V)>, k: Seq<char>) -> bool {
    last_index(s, k) is Some
}

/// No key occurs twice.
pub open spec fn unique_keys<V>(s: Seq<(Seq<char>, V)>) -> bool {
    forall|i: int, j: int| 0 <= i < j < s.len() ==> #[trigger] s[i].0 != #[trigger] s[j].0
}

/// Adding a pair under a new key keeps the keys unique.
pub proof fn lemma_push_new_key<V>(s: Seq<(Seq<char>, V)>, k: Seq<char>, v: V)
    requires
        unique_keys(s),
        !has_key(s, k),
    ensures
        unique_keys(s.push((k, v))),
{
    lemma_last_index(s, k);
    let t = s.push((k, v));
    assert forall|i: int, j: int| 0 <= i < j < t.len() implies #[trigger] t[i].0 != #[trigger] t[j].0 by {
        assert(t[i] == s[i]);
        if j < s.len() {
            assert(t[j] == s[j]);
        }
    }
}

/// The model of a keyed list whose values have a view.
pub open spec fn pairs_view<V: View>(s: Seq<(String, V)>) -> Seq<(Seq<char>, V::V)> {
    s.map_values(|p: (String, V)| (p.0@, p.1@))
}

pub proof fn lemma_last_index<V>(s: Seq<(Seq<char>, V)>, k: Seq<char>)
    ensures
        match last_index(s, k) {
            Some(i) => 0 <= i < s.len() && s[i].0 == k && forall|j: int| i < j < s.len() ==> s[j].0 != k,
            None => forall|j: int| 0 <= j < s.len() ==> s[j].0 != k,
        },
    decreases s.len(),
{
    if s.len() > 0 {
        lemma_last_index(s.drop_last(), k);
        if s.last().0 != k {
            assert forall|j: int| 0 <= j < s.len() - 1 implies s[j] == s.drop_last()[j] by {}
        }
    }
}

/// A pair at `i` with key `k` and none after it: `i` is the last index of `k`.
pub proof fn lemma_last_index_at<V>(s: Seq<(Seq<char>, V)>, k: Seq<char>, i: int)
    requires
        0 <= i < s.len(),
        s[i].0 == k,
        forall|j: int| i < j < s.len() ==> s[j].0 != k,
    ensures
        last_index(s, k) == Some(i),
    decreases s.len(),
{
    if i < s.len() - 1 {
        lemma_last_index_at(s.drop_last(), k, i);
    }
}

/// No pair with key `k`.
pub proof fn lemma_last_index_none<V>(s: Seq<(Seq<char>, V)>, k: Seq<char>)
    requires
        forall|j: int| 0 <= j < s.len() ==> s[j].0 != k,
    ensures
        last_index(s, k) is None,
    decreases s.len(),
{
    if s.len() > 0 {
        lemma_last_index_none(s.drop_last(), k);
    }
}

/// The position of the last pair of `s` whose key is `k`.
pub fn find_key<V: View>(s: &Vec<(String, V)>, k: &str) -> (r: Option<usize>)
    ensures
        match r {
            Some(i) => i < s@.len() && last_index(pairs_view(s@), k@) == Some(i as int),
            None => last_index(pairs_view(s@), k@) is None,
        },
{
    let ghost vs = pairs_view(s@);
    let mut i: usize = s.len();
    while i > 0
        invariant
            i <= s@.len(),
            vs == pairs_view(s@),
            forall|j: int| i <= j < s@.len() ==> vs[j].0 != k@,
        decreases i,
    {
        if same_text(s[i - 1].0.as_str(), k) {
            proof {
                lemma_last_index_at(vs, k@, i - 1);
            }
            return Some(i - 1);
        }
        i -= 1;
    }
    proof {
        lemma_last_index_none(vs, k@);
    }
    None
}

} // verus!
