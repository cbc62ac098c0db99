//! Canonical form: object members sorted by key, recursively.

use vstd::prelude::*;
use crate::keyed::unique_keys;
use crate::order::{key_lt, key_less, same_text, lemma_key_order};
use crate::value::{Value, JVal, value_view, items_view, members_view, lemma_members_view};

verus! {

/// Puts member `m` into the key-sorted list `s`; a member with the same key
/// is replaced.
pub open spec fn insert_member(s: Seq<(Seq<char>, JVal)>, m: (Seq<char>, JVal)) -> Seq<(Seq<char>, JVal)>
    decreases s.len(),
{
    if s.len() == 0 {
        seq![m]
    } else if s[0].0 == m.0 {
        seq![m] + s.drop_first()
    } else if key_lt(m.0, s[0].0) {
        seq![m] + s
    } else {
        seq![s[0]] + insert_member(s.drop_first(), m)
    }
}

/// The members of `s` sorted by key, later members replacing earlier ones
/// with the same key.
pub open spec fn sort_members(s: Seq<(Seq<char>, JVal)>) -> Seq<(Seq<char>, JVal)>
    decreases s.len(),
{
    if s.len() == 0 {
        s
    } else {
        insert_member(sort_members(s.drop_last()), s.last())
    }
}

/// The canonical form of a value.
pub open spec fn canon(v: JVal) -> JVal
    decreases v,
{
    match v {
        JVal::Array(items) => JVal::Array(canon_items(items)),
        JVal::Object(members) => JVal::Object(sort_members(canon_members(members))),
        _ => v,
    }
}

pub open spec fn canon_items(items: Seq<JVal>) -> Seq<JVal>
    decreases items,
{
    if items.len() == 0 {
        Seq::empty()
    } else {
        canon_items(items.subrange(0, items.len() - 1)).push(canon(items[items.len() - 1]))
    }
}

pub open spec fn canon_members(members: Seq<(Seq<char>, JVal)>) -> Seq<(Seq<char>, JVal)>
    decreases members,
{
    if members.len() == 0 {
        Seq::empty()
    } else {
        let m = members[members.len() - 1];
        canon_members(members.subrange(0, members.len() - 1)).push((m.0, canon(m.1)))
    }
}

/// Where `j` is the first position whose key is not below `m`'s, inserting
/// `m` replaces or shifts at `j`.
pub proof fn lemma_insert_at(s: Seq<(Seq<char>, JVal)>, m: (Seq<char>, JVal), j: int)
    requires
        0 <= j <= s.len(),
        forall|k: int| 0 <= k < j ==> key_lt(#[trigger] s[k].0, m.0),
        j < s.len() ==> !key_lt(s[j].0, m.0),
    ensures
        insert_member(s, m) == if j < s.len() && s[j].0 == m.0 {
            s.update(j, m)
        } else {
            s.insert(j, m)
        },
    decreases j,
{
    if j == 0 {
        if s.len() > 0 {
            lemma_key_order(s[0].0, m.0, m.0);
            if s[0].0 == m.0 {
                assert(seq![m] + s.drop_first() =~= s.update(0, m));
            } else {
                assert(seq![m] + s =~= s.insert(0, m));
            }
        } else {
            assert(seq![m] =~= s.insert(0, m));
        }
    } else {
        lemma_key_order(s[0].0, m.0, m.0);
        let t = s.drop_first();
        assert forall|k: int| 0 <= k < j - 1 implies key_lt(#[trigger] t[k].0, m.0) by {
            assert(t[k] == s[k + 1]);
        }
        lemma_insert_at(t, m, j - 1);
        if j < s.len() && s[j].0 == m.0 {
            assert(seq![s[0]] + t.update(j - 1, m) =~= s.update(j, m));
        } else {
            assert(seq![s[0]] + t.insert(j - 1, m) =~= s.insert(j, m));
        }
    }
}

/// Keys strictly ascending.
pub open spec fn sorted_by_key(s: Seq<(Seq<char>, JVal)>) -> bool {
    forall|i: int, j: int| 0 <= i < j < s.len() ==> key_lt(#[trigger] s[i].0, #[trigger] s[j].0)
}

pub proof fn lemma_canon_items_index(items: Seq<JVal>)
    ensures
        canon_items(items).len() == items.len(),
        forall|i: int| 0 <= i < items.len() ==> #[trigger] canon_items(items)[i] == canon(items[i]),
    decreases items.len(),
{
    if items.len() > 0 {
        let front = items.subrange(0, items.len() - 1);
        lemma_canon_items_index(front);
        assert forall|i: int| 0 <= i < items.len() implies #[trigger] canon_items(items)[i] == canon(items[i]) by {
            if i < items.len() - 1 {
                assert(front[i] == items[i]);
            }
        }
    }
}

pub proof fn lemma_canon_members_index(ms: Seq<(Seq<char>, JVal)>)
    ensures
        canon_members(ms).len() == ms.len(),
        forall|i: int| 0 <= i < ms.len() ==> #[trigger] canon_members(ms)[i] == (ms[i].0, canon(ms[i].1)),
    decreases ms.len(),
{
    if ms.len() > 0 {
        let front = ms.subrange(0, ms.len() - 1);
        lemma_canon_members_index(front);
        assert forall|i: int| 0 <= i < ms.len() implies #[trigger] canon_members(ms)[i] == (ms[i].0, canon(ms[i].1)) by {
            if i < ms.len() - 1 {
                assert(front[i] == ms[i]);
            }
        }
    }
}

/// Inserting into a sorted list keeps it sorted, and keeps exactly the old
/// members whose key differs from `m`'s, plus `m`.
pub proof fn lemma_insert_sorted(s: Seq<(Seq<char>, JVal)>, m: (Seq<char>, JVal))
    requires
        sorted_by_key(s),
    ensures
        sorted_by_key(insert_member(s, m)),
        forall|x: (Seq<char>, JVal)| #[trigger] insert_member(s, m).contains(x) <==> (x == m || (s.contains(x) && x.0 != m.0)),
    decreases s.len(),
{
    if s.len() == 0 {
        assert(insert_member(s, m) =~= seq![m]);
        assert forall|x: (Seq<char>, JVal)| #[trigger] insert_member(s, m).contains(x) <==> x == m by {
            if x == m {
                assert(insert_member(s, m)[0] == x);
            }
        }
    } else {
        let t = s.drop_first();
        assert forall|i: int, j: int| 0 <= i < j < t.len() implies key_lt(#[trigger] t[i].0, #[trigger] t[j].0) by {
            assert(t[i] == s[i + 1] && t[j] == s[j + 1]);
        }
        assert forall|x: (Seq<char>, JVal)| s.contains(x) && x != s[0] implies t.contains(x) by {
            let k = choose|k: int| 0 <= k < s.len() && s[k] == x;
            assert(t[k - 1] == x);
        }
        assert forall|x: (Seq<char>, JVal)| t.contains(x) implies s.contains(x) && x.0 != s[0].0 by {
            let k = choose|k: int| 0 <= k < t.len() && t[k] == x;
            assert(s[k + 1] == x);
            lemma_key_order(s[0].0, x.0, x.0);
        }
        lemma_key_order(s[0].0, m.0, m.0);
        if s[0].0 == m.0 {
            let r = seq![m] + t;
            assert forall|i: int, j: int| 0 <= i < j < r.len() implies key_lt(#[trigger] r[i].0, #[trigger] r[j].0) by {
                if i == 0 {
                    assert(r[j] == s[j]);
                } else {
                    assert(r[i] == s[i] && r[j] == s[j]);
                }
            }
            assert forall|x: (Seq<char>, JVal)| r.contains(x) <==> (x == m || (s.contains(x) && x.0 != m.0)) by {
                if r.contains(x) && x != m {
                    let k = choose|k: int| 0 <= k < r.len() && r[k] == x;
                    assert(t[k - 1] == x);
                }
                if x == m {
                    assert(r[0] == x);
                }
                if s.contains(x) && x.0 != m.0 {
                    assert(t.contains(x));
                    let k = choose|k: int| 0 <= k < t.len() && t[k] == x;
                    assert(r[k + 1] == x);
                }
            }
        } else if key_lt(m.0, s[0].0) {
            let r = seq![m] + s;
            assert forall|i: int, j: int| 0 <= i < j < r.len() implies key_lt(#[trigger] r[i].0, #[trigger] r[j].0) by {
                if i == 0 {
                    assert(r[j] == s[j - 1]);
                    if j > 1 {
                        lemma_key_order(m.0, s[0].0, s[j - 1].0);
                    }
                } else {
                    assert(r[i] == s[i - 1] && r[j] == s[j - 1]);
                }
            }
            assert forall|x: (Seq<char>, JVal)| r.contains(x) <==> (x == m || (s.contains(x) && x.0 != m.0)) by {
                if r.contains(x) && x != m {
                    let k = choose|k: int| 0 <= k < r.len() && r[k] == x;
                    assert(s[k - 1] == x);
                    if k - 1 > 0 {
                        lemma_key_order(m.0, s[0].0, s[k - 1].0);
                        lemma_key_order(m.0, x.0, x.0);
                    }
                }
                if x == m {
                    assert(r[0] == x);
                }
                if s.contains(x) && x.0 != m.0 {
                    let k = choose|k: int| 0 <= k < s.len() && s[k] == x;
                    assert(r[k + 1] == x);
                }
            }
        } else {
            lemma_insert_sorted(t, m);
            let rest = insert_member(t, m);
            let r = seq![s[0]] + rest;
            assert forall|i: int, j: int| 0 <= i < j < r.len() implies key_lt(#[trigger] r[i].0, #[trigger] r[j].0) by {
                if i == 0 {
                    assert(r[j] == rest[j - 1]);
                    assert(rest.contains(rest[j - 1]));
                    if rest[j - 1] != m {
                        assert(t.contains(rest[j - 1]));
                        let k = choose|k: int| 0 <= k < t.len() && t[k] == rest[j - 1];
                        assert(s[k + 1] == t[k]);
                    }
                } else {
                    assert(r[i] == rest[i - 1] && r[j] == rest[j - 1]);
                }
            }
            assert forall|x: (Seq<char>, JVal)| r.contains(x) <==> (x == m || (s.contains(x) && x.0 != m.0)) by {
                if r.contains(x) && x != s[0] {
                    let k = choose|k: int| 0 <= k < r.len() && r[k] == x;
                    assert(rest[k - 1] == x);
                    assert(rest.contains(x));
                }
                if r.contains(x) && x == s[0] {
                    assert(s[0] == x);
                    assert(s.contains(x));
                }
                if x == m {
                    assert(rest.contains(x));
                    let k = choose|k: int| 0 <= k < rest.len() && rest[k] == x;
                    assert(r[k + 1] == x);
                }
                if s.contains(x) && x.0 != m.0 {
                    if x == s[0] {
                        assert(r[0] == x);
                    } else {
                        assert(t.contains(x));
                        assert(rest.contains(x));
                        let k = choose|k: int| 0 <= k < rest.len() && rest[k] == x;
                        assert(r[k + 1] == x);
                    }
                }
            }
        }
    }
}

/// Sorting gives a sorted list.
pub proof fn lemma_sort_sorted(s: Seq<(Seq<char>, JVal)>)
    ensures
        sorted_by_key(sort_members(s)),
    decreases s.len(),
{
    if s.len() > 0 {
        lemma_sort_sorted(s.drop_last());
        lemma_insert_sorted(sort_members(s.drop_last()), s.last());
    }
}

/// Sorting leaves a sorted list as it is.
pub proof fn lemma_sort_of_sorted(s: Seq<(Seq<char>, JVal)>)
    requires
        sorted_by_key(s),
    ensures
        sort_members(s) == s,
    decreases s.len(),
{
    if s.len() > 0 {
        let front = s.drop_last();
        assert forall|i: int, j: int| 0 <= i < j < front.len() implies key_lt(#[trigger] front[i].0, #[trigger] front[j].0) by {
            assert(front[i] == s[i] && front[j] == s[j]);
        }
        lemma_sort_of_sorted(front);
        assert forall|k: int| 0 <= k < front.len() implies key_lt(#[trigger] front[k].0, s.last().0) by {
            assert(front[k] == s[k]);
        }
        lemma_insert_at(front, s.last(), front.len() as int);
        assert(front.insert(front.len() as int, s.last()) =~= s);
    }
}

/// Canonicalizing the values commutes with inserting.
pub proof fn lemma_canon_insert(s: Seq<(Seq<char>, JVal)>, m: (Seq<char>, JVal))
    ensures
        canon_members(insert_member(s, m)) == insert_member(canon_members(s), (m.0, canon(m.1))),
    decreases s.len(),
{
    let cm = (m.0, canon(m.1));
    lemma_canon_members_index(s);
    let cs = canon_members(s);
    let r = insert_member(s, m);
    lemma_canon_members_index(r);
    if s.len() == 0 {
        assert(canon_members(r) =~= seq![cm]);
    } else {
        let t = s.drop_first();
        lemma_canon_members_index(t);
        assert(cs[0].0 == s[0].0);
        assert(cs.drop_first() =~= canon_members(t)) by {
            assert forall|i: int| 0 <= i < t.len() implies #[trigger] cs.drop_first()[i] == canon_members(t)[i] by {
                assert(t[i] == s[i + 1]);
            }
        }
        if s[0].0 == m.0 {
            assert(canon_members(r) =~= seq![cm] + cs.drop_first());
        } else if key_lt(m.0, s[0].0) {
            assert(canon_members(r) =~= seq![cm] + cs);
        } else {
            lemma_canon_insert(t, m);
            let rest = insert_member(t, m);
            lemma_canon_members_index(rest);
            assert(canon_members(r) =~= seq![cs[0]] + canon_members(rest)) by {
                assert forall|i: int| 0 <= i < r.len() implies #[trigger] canon_members(r)[i] == (seq![cs[0]] + canon_members(rest))[i] by {
                    if i > 0 {
                        assert(r[i] == rest[i - 1]);
                    }
                }
            }
        }
    }
}

/// Canonicalizing the values commutes with sorting.
pub proof fn lemma_canon_sort(s: Seq<(Seq<char>, JVal)>)
    ensures
        canon_members(sort_members(s)) == sort_members(canon_members(s)),
    decreases s.len(),
{
    if s.len() > 0 {
        let front = s.drop_last();
        lemma_canon_sort(front);
        lemma_canon_insert(sort_members(front), s.last());
        assert(s.subrange(0, s.len() - 1) == front);
        let cs = canon_members(s);
        assert(cs.drop_last() =~= canon_members(front));
    }
}

/// Canonicalization is idempotent.
pub proof fn lemma_canon_idempotent(v: JVal)
    ensures
        canon(canon(v)) == canon(v),
    decreases v,
{
    match v {
        JVal::Array(items) => {
            let ci = canon_items(items);
            lemma_canon_items_index(items);
            lemma_canon_items_index(ci);
            assert forall|i: int| 0 <= i < items.len() implies #[trigger] canon_items(ci)[i] == ci[i] by {
                assert(decreases_to!(v => items));
                lemma_canon_idempotent(items[i]);
            }
            assert(canon_items(ci) =~= ci);
        },
        JVal::Object(ms) => {
            let cm = canon_members(ms);
            lemma_canon_members_index(ms);
            lemma_canon_members_index(cm);
            assert forall|i: int| 0 <= i < ms.len() implies #[trigger] canon_members(cm)[i] == cm[i] by {
                assert(decreases_to!(v => ms));
                assert(decreases_to!(ms[i] => ms[i].1));
                lemma_canon_idempotent(ms[i].1);
            }
            assert(canon_members(cm) =~= cm);
            lemma_canon_sort(cm);
            lemma_sort_sorted(cm);
            lemma_sort_of_sorted(sort_members(cm));
        },
        _ => {},
    }
}

/// Two sorted lists with the same members are the same list.
pub proof fn lemma_sorted_same_members(a: Seq<(Seq<char>, JVal)>, b: Seq<(Seq<char>, JVal)>)
    requires
        sorted_by_key(a),
        sorted_by_key(b),
        forall|x: (Seq<char>, JVal)| a.contains(x) <==> b.contains(x),
    ensures
        a == b,
    decreases a.len(),
{
    if a.len() == 0 {
        if b.len() > 0 {
            assert(b.contains(b[0]));
        }
        assert(a =~= b);
    } else {
        assert(a.contains(a[0]));
        assert(b.contains(a[0]));
        let j = choose|j: int| 0 <= j < b.len() && b[j] == a[0];
        assert(b.contains(b[0]));
        assert(a.contains(b[0]));
        let i = choose|i: int| 0 <= i < a.len() && a[i] == b[0];
        lemma_key_order(a[0].0, b[0].0, a[0].0);
        if j > 0 {
            assert(key_lt(b[0].0, b[j].0));
            if i > 0 {
                assert(key_lt(a[0].0, a[i].0));
            }
        }
        assert(a[0] == b[0]);
        let ta = a.drop_first();
        let tb = b.drop_first();
        assert forall|p: int, q: int| 0 <= p < q < ta.len() implies key_lt(#[trigger] ta[p].0, #[trigger] ta[q].0) by {
            assert(ta[p] == a[p + 1] && ta[q] == a[q + 1]);
        }
        assert forall|p: int, q: int| 0 <= p < q < tb.len() implies key_lt(#[trigger] tb[p].0, #[trigger] tb[q].0) by {
            assert(tb[p] == b[p + 1] && tb[q] == b[q + 1]);
        }
        assert forall|x: (Seq<char>, JVal)| ta.contains(x) <==> tb.contains(x) by {
            if ta.contains(x) {
                let k = choose|k: int| 0 <= k < ta.len() && ta[k] == x;
                assert(a[k + 1] == x);
                assert(key_lt(a[0].0, a[k + 1].0));
                lemma_key_order(a[0].0, x.0, x.0);
                assert(b.contains(x));
                let k2 = choose|k2: int| 0 <= k2 < b.len() && b[k2] == x;
                assert(k2 != 0);
                assert(tb[k2 - 1] == x);
            }
            if tb.contains(x) {
                let k = choose|k: int| 0 <= k < tb.len() && tb[k] == x;
                assert(b[k + 1] == x);
                assert(key_lt(b[0].0, b[k + 1].0));
                lemma_key_order(b[0].0, x.0, x.0);
                assert(a.contains(x));
                let k2 = choose|k2: int| 0 <= k2 < a.len() && a[k2] == x;
                assert(k2 != 0);
                assert(ta[k2 - 1] == x);
            }
        }
        lemma_sorted_same_members(ta, tb);
        assert(a =~= seq![a[0]] + ta);
        assert(b =~= seq![b[0]] + tb);
    }
}

/// With unique keys, sorting keeps exactly the members.
pub proof fn lemma_sort_members_kept(s: Seq<(Seq<char>, JVal)>)
    requires
        unique_keys(s),
    ensures
        forall|x: (Seq<char>, JVal)| #[trigger] sort_members(s).contains(x) <==> s.contains(x),
    decreases s.len(),
{
    if s.len() > 0 {
        let front = s.drop_last();
        assert forall|i: int, j: int| 0 <= i < j < front.len() implies #[trigger] front[i].0 != #[trigger] front[j].0 by {
            assert(front[i] == s[i] && front[j] == s[j]);
        }
        lemma_sort_members_kept(front);
        lemma_sort_sorted(front);
        lemma_insert_sorted(sort_members(front), s.last());
        assert forall|x: (Seq<char>, JVal)| #[trigger] sort_members(s).contains(x) <==> s.contains(x) by {
            if s.contains(x) && x != s.last() {
                let k = choose|k: int| 0 <= k < s.len() && s[k] == x;
                assert(front[k] == x);
                assert(front.contains(x));
                assert(x.0 != s.last().0);
            }
            if front.contains(x) {
                let k = choose|k: int| 0 <= k < front.len() && front[k] == x;
                assert(s[k] == x);
            }
            if x == s.last() {
                assert(s[s.len() - 1] == x);
            }
        }
    }
}

/// The members of the value-canonicalized list.
pub proof fn lemma_canon_members_kept(s: Seq<(Seq<char>, JVal)>)
    ensures
        forall|y: (Seq<char>, JVal)| #[trigger] canon_members(s).contains(y) <==> exists|i: int| 0 <= i < s.len() && y == (s[i].0, canon(s[i].1)),
        unique_keys(s) ==> unique_keys(canon_members(s)),
{
    lemma_canon_members_index(s);
    assert forall|y: (Seq<char>, JVal)| #[trigger] canon_members(s).contains(y) <==> exists|i: int| 0 <= i < s.len() && y == (s[i].0, canon(s[i].1)) by {
        if exists|i: int| 0 <= i < s.len() && y == (s[i].0, canon(s[i].1)) {
            let i = choose|i: int| 0 <= i < s.len() && y == (s[i].0, canon(s[i].1));
            assert(canon_members(s)[i] == y);
        }
    }
}
/// The canonical form of `v`: every object's members sorted by key.
pub fn canonicalize(v: &Value) -> (r: Value)
    ensures
        r@ == canon(v@),
    decreases v,
{
    match v {
        Value::Null => Value::Null,
        Value::Bool(b) => Value::Bool(*b),
        Value::Number(t) => Value::Number(t.clone()),
        Value::String(s) => Value::String(s.clone()),
        Value::Array(items) => {
            let mut out: Vec<Value> = Vec::new();
            let mut i: usize = 0;
            while i < items.len()
                invariant
                    i <= items.len(),
                    out@.len() == i,
                    *v == Value::Array(*items),
                    items_view(out@) == canon_items(items_view(items@.subrange(0, i as int))),
                decreases items.len() - i,
            {
                proof {
                    vstd::std_specs::vec::axiom_vec_index_decreases(*items, i as int);
                    assert(decreases_to!(*v => v->Array_0));
                }
                let c = canonicalize(&items[i]);
                let ghost before = out@;
                out.push(c);
                proof {
                    let prev = items_view(items@.subrange(0, i as int));
                    assert(out@.subrange(0, i as int) == before);
                    assert(items@.subrange(0, i + 1).subrange(0, i as int) == items@.subrange(0, i as int));
                    assert(items@.subrange(0, i + 1)[i as int] == items@[i as int]);
                    let next = items_view(items@.subrange(0, i + 1));
                    assert(next == prev.push(value_view(items@[i as int])));
                    crate::value::lemma_items_view(items@.subrange(0, i as int));
                    assert(next.subrange(0, i as int) =~= prev);
                }
                i += 1;
            }
            assert(items@.subrange(0, items.len() as int) == items@);
            Value::Array(out)
        },
        Value::Object(members) => {
            let mut out: Vec<(String, Value)> = Vec::new();
            let mut i: usize = 0;
            while i < members.len()
                invariant
                    i <= members.len(),
                    *v == Value::Object(*members),
                    members_view(out@) == sort_members(canon_members(members_view(members@.subrange(0, i as int)))),
                decreases members.len() - i,
            {
                proof {
                    vstd::std_specs::vec::axiom_vec_index_decreases(*members, i as int);
                    assert(decreases_to!(*v => v->Object_0));
                    assert(decreases_to!(members[i as int] => members[i as int].1));
                }
                let c = canonicalize(&members[i].1);
                let key = members[i].0.clone();
                let ghost m = (key@, c@);
                let ghost sorted = members_view(out@);
                proof {
                    let prev = members_view(members@.subrange(0, i as int));
                    assert(members@.subrange(0, i + 1).subrange(0, i as int) == members@.subrange(0, i as int));
                    assert(members@.subrange(0, i + 1)[i as int] == members@[i as int]);
                    let next = members_view(members@.subrange(0, i + 1));
                    assert(next == prev.push((members@[i as int].0@, value_view(members@[i as int].1))));
                    lemma_members_view(members@.subrange(0, i as int));
                    assert(next.subrange(0, i as int) =~= prev);
                    let cm = canon_members(next);
                    assert(cm == canon_members(prev).push(m));
                    assert(cm.drop_last() == canon_members(prev));
                    assert(sort_members(cm) == insert_member(sorted, m));
                    lemma_members_view(out@);
                }
                let mut j: usize = 0;
                while j < out.len() && key_less(out[j].0.as_str(), key.as_str())
                    invariant
                        j <= out@.len(),
                        m.0 == key@,
                        sorted == members_view(out@),
                        sorted.len() == out@.len(),
                        forall|k: int| 0 <= k < sorted.len() ==> #[trigger] sorted[k] == (out@[k].0@, value_view(out@[k].1)),
                        forall|k: int| 0 <= k < j ==> key_lt(#[trigger] sorted[k].0, m.0),
                    decreases out@.len() - j,
                {
                    assert(sorted[j as int].0 == out@[j as int].0@);
                    j += 1;
                }
                proof {
                    lemma_insert_at(sorted, m, j as int);
                }
                if j < out.len() && same_text(out[j].0.as_str(), key.as_str()) {
                    out.set(j, (key, c));
                    proof {
                        lemma_members_view(out@);
                        assert(members_view(out@) =~= sorted.update(j as int, m));
                    }
                } else {
                    out.insert(j, (key, c));
                    proof {
                        lemma_members_view(out@);
                        assert(members_view(out@) =~= sorted.insert(j as int, m));
                    }
                }
                i += 1;
            }
            assert(members@.subrange(0, members.len() as int) == members@);
            Value::Object(out)
        },
    }
}

} // verus!
