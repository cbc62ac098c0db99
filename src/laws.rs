//! Laws that relate the operations of the ledger.

use vstd::prelude::*;
use crate::value::JVal;
use crate::keyed::{last_index, lookup, has_key, lemma_last_index, unique_keys};
use crate::canonical::{
    canon, canon_items, canon_members, sort_members, lemma_canon_idempotent, lemma_canon_members_kept,
    lemma_canon_items_index, lemma_canon_members_index,
    lemma_sort_members_kept, lemma_sort_sorted, lemma_sorted_same_members,
};
use crate::text::value_text;
use crate::record::{EntryView, CommitView, LedgerView, ErrorCode, Fault, entry_id, entry_core};
use crate::checks::entry_problems;
use crate::ops::{entry_appended, commit_appended, commit_appended_strict, with_commit};
use crate::chain::{walk, commit_chain, replay_entry_ids, replay_ids_of};

verus! {

/// Canonicalizing a canonical value changes nothing.
pub proof fn law_canonicalize_idempotent(v: JVal)
    ensures
        canon(canon(v)) == canon(v),
{
    lemma_canon_idempotent(v);
}

/// Two objects with the same members (keys unique), in whatever order,
/// have the same canonical form and so the same canonical text.
pub proof fn law_key_order_independent(a: Seq<(Seq<char>, JVal)>, b: Seq<(Seq<char>, JVal)>)
    requires
        unique_keys(a),
        unique_keys(b),
        forall|x: (Seq<char>, JVal)| a.contains(x) <==> b.contains(x),
    ensures
        canon(JVal::Object(a)) == canon(JVal::Object(b)),
        value_text(canon(JVal::Object(a))) == value_text(canon(JVal::Object(b))),
{
    let ca = canon_members(a);
    let cb = canon_members(b);
    lemma_canon_members_kept(a);
    lemma_canon_members_kept(b);
    assert forall|y: (Seq<char>, JVal)| ca.contains(y) <==> cb.contains(y) by {
        if ca.contains(y) {
            let i = choose|i: int| 0 <= i < a.len() && y == (a[i].0, canon(a[i].1));
            assert(a.contains(a[i]));
            let j = choose|j: int| 0 <= j < b.len() && b[j] == a[i];
            assert(y == (b[j].0, canon(b[j].1)));
        }
        if cb.contains(y) {
            let i = choose|i: int| 0 <= i < b.len() && y == (b[i].0, canon(b[i].1));
            assert(b.contains(b[i]));
            let j = choose|j: int| 0 <= j < a.len() && a[j] == b[i];
            assert(y == (a[j].0, canon(a[j].1)));
        }
    }
    lemma_sort_members_kept(ca);
    lemma_sort_members_kept(cb);
    lemma_sort_sorted(ca);
    lemma_sort_sorted(cb);
    assert forall|x: (Seq<char>, JVal)| sort_members(ca).contains(x) <==> sort_members(cb).contains(x) by {}
    lemma_sorted_same_members(sort_members(ca), sort_members(cb));
}

/// `a` and `b` differ at most in the order of object members, at any depth:
/// arrays match element by element, and objects (with unique keys) have
/// the same keys, each with related values.
pub open spec fn same_but_order(a: JVal, b: JVal) -> bool
    decreases a,
{
    match a {
        JVal::Array(x) => match b {
            JVal::Array(y) => x.len() == y.len() && forall|i: int|
                0 <= i < x.len() ==> same_but_order(#[trigger] x[i], y[i]),
            _ => false,
        },
        JVal::Object(x) => match b {
            JVal::Object(y) => {
                &&& unique_keys(x)
                &&& unique_keys(y)
                &&& forall|i: int|
                    0 <= i < x.len() ==> has_key(y, (#[trigger] x[i]).0) && same_but_order(
                        x[i].1,
                        lookup(y, x[i].0)->0,
                    )
                &&& forall|j: int| 0 <= j < y.len() ==> has_key(x, (#[trigger] y[j]).0)
            },
            _ => false,
        },
        _ => a == b,
    }
}

proof fn lemma_unique_index<V>(s: Seq<(Seq<char>, V)>, j: int)
    requires
        unique_keys(s),
        0 <= j < s.len(),
    ensures
        lookup(s, s[j].0) == Some(s[j].1),
{
    lemma_last_index(s, s[j].0);
    let k = last_index(s, s[j].0)->0;
    if k != j {
        if k < j {
            assert(s[k].0 != s[j].0);
        } else {
            assert(s[j].0 != s[k].0);
        }
    }
}

/// Objects with unique keys, the same keys, and values of equal canonical
/// form under each key, have the same canonical form.
proof fn lemma_objects_same_canon(x: Seq<(Seq<char>, JVal)>, y: Seq<(Seq<char>, JVal)>)
    requires
        unique_keys(x),
        unique_keys(y),
        forall|i: int| 0 <= i < x.len() ==> has_key(y, (#[trigger] x[i]).0) && canon(x[i].1) == canon(lookup(y, x[i].0)->0),
        forall|j: int| 0 <= j < y.len() ==> has_key(x, (#[trigger] y[j]).0),
    ensures
        sort_members(canon_members(x)) == sort_members(canon_members(y)),
{
    let cx = canon_members(x);
    let cy = canon_members(y);
    lemma_canon_members_kept(x);
    lemma_canon_members_kept(y);
    lemma_canon_members_index(x);
    lemma_canon_members_index(y);
    assert forall|m: (Seq<char>, JVal)| cx.contains(m) implies cy.contains(m) by {
        let i = choose|i: int| 0 <= i < x.len() && m == (x[i].0, canon(x[i].1));
        assert(has_key(y, x[i].0));
        lemma_last_index(y, x[i].0);
        let j = last_index(y, x[i].0)->0;
        assert(cy[j] == m);
    }
    assert forall|m: (Seq<char>, JVal)| cy.contains(m) implies cx.contains(m) by {
        let j = choose|j: int| 0 <= j < y.len() && m == (y[j].0, canon(y[j].1));
        assert(has_key(x, y[j].0));
        lemma_last_index(x, y[j].0);
        let i = last_index(x, y[j].0)->0;
        lemma_unique_index(y, j);
        assert(cx[i] == m);
    }
    assert forall|p: int, q: int| 0 <= p < q < cx.len() implies #[trigger] cx[p].0 != #[trigger] cx[q].0 by {
        assert(x[p].0 != x[q].0);
    }
    assert forall|p: int, q: int| 0 <= p < q < cy.len() implies #[trigger] cy[p].0 != #[trigger] cy[q].0 by {
        assert(y[p].0 != y[q].0);
    }
    lemma_sort_members_kept(cx);
    lemma_sort_members_kept(cy);
    lemma_sort_sorted(cx);
    lemma_sort_sorted(cy);
    assert forall|m: (Seq<char>, JVal)| sort_members(cx).contains(m) <==> sort_members(cy).contains(m) by {}
    lemma_sorted_same_members(sort_members(cx), sort_members(cy));
}

proof fn lemma_arrays_same_canon(x: Seq<JVal>, y: Seq<JVal>)
    requires
        x.len() == y.len(),
        forall|i: int| 0 <= i < x.len() ==> canon(#[trigger] x[i]) == canon(y[i]),
    ensures
        canon_items(x) == canon_items(y),
{
    lemma_canon_items_index(x);
    lemma_canon_items_index(y);
    assert(canon_items(x) =~= canon_items(y));
}

/// Values that differ only in the order of object members, at any depth,
/// have the same canonical form, and so the same canonical text.
pub proof fn law_key_order_independent_deep(a: JVal, b: JVal)
    requires
        same_but_order(a, b),
    ensures
        canon(a) == canon(b),
        value_text(canon(a)) == value_text(canon(b)),
    decreases a,
{
    match a {
        JVal::Array(x) => {
            let y = b->Array_0;
            assert forall|i: int| 0 <= i < x.len() implies canon(#[trigger] x[i]) == canon(y[i]) by {
                assert(decreases_to!(a => x));
                law_key_order_independent_deep(x[i], y[i]);
            }
            lemma_arrays_same_canon(x, y);
        },
        JVal::Object(x) => {
            let y = b->Object_0;
            assert forall|i: int| 0 <= i < x.len() implies has_key(y, (#[trigger] x[i]).0) && canon(x[i].1) == canon(lookup(y, x[i].0)->0) by {
                assert(decreases_to!(a => x));
                assert(decreases_to!(x[i] => x[i].1));
                law_key_order_independent_deep(x[i].1, lookup(y, x[i].0)->0);
            }
            lemma_objects_same_canon(x, y);
        },
        _ => {},
    }
}

/// The signature is not part of an entry's identity.
pub proof fn law_entry_id_ignores_signature(a: EntryView, b: EntryView)
    requires
        a.kind == b.kind,
        a.timestamp == b.timestamp,
        a.author == b.author,
        a.payload == b.payload,
    ensures
        entry_id(a) == entry_id(b),
{
    assert(entry_core(a) == entry_core(b));
}

/// After one append of an entry, appending an entry with the same kind,
/// timestamp, author and payload fails as a duplicate.
pub proof fn law_duplicate_entry_rejected(l: LedgerView, a: EntryView, b: EntryView, id: Seq<char>, l1: LedgerView)
    requires
        entry_appended(l, a) == Ok::<(Seq<char>, LedgerView), Fault>((id, l1)),
        a.kind == b.kind,
        a.timestamp == b.timestamp,
        a.author == b.author,
        a.payload == b.payload,
    ensures
        entry_appended(l1, b) matches Err(f) && f.code == ErrorCode::DuplicateEntry,
{
    assert(entry_core(a) == entry_core(b));
    assert(entry_problems(a) == entry_problems(b));
    assert(l1.entries.last().0 == entry_id(b));
    assert(last_index(l1.entries, entry_id(b)) is Some);
}

/// A strict append whose id is not the content hash of the commit fails
/// with a mismatch.
pub proof fn law_strict_append_guards_id(l: LedgerView, id: Seq<char>, c: CommitView)
    requires
        crate::record::commit_id(c) != id,
    ensures
        commit_appended_strict(l, id, c) matches Err(f) && f.code == ErrorCode::CommitIdMismatch,
{
}

proof fn lemma_walk_shifted(cs: Seq<(Seq<char>, CommitView)>, id: Seq<char>, c: CommitView, cur: Seq<char>, path: Seq<Seq<char>>, fuel: nat, r: Seq<Seq<char>>)
    requires
        !has_key(cs, id),
        walk(cs, cur, path, fuel) == Ok::<Seq<Seq<char>>, Fault>(r),
    ensures
        walk(cs.push((id, c)), cur, seq![id] + path, fuel) == Ok::<Seq<Seq<char>>, Fault>(seq![id] + r),
    decreases fuel,
{
    let cs2 = cs.push((id, c));
    assert(cs2.drop_last() == cs);
    assert(has_key(cs, cur));
    assert(cur != id);
    assert(last_index(cs2, cur) == last_index(cs, cur));
    assert(!(seq![id] + path).contains(cur)) by {
        if (seq![id] + path).contains(cur) {
            let k = choose|k: int| 0 <= k < path.len() + 1 && (seq![id] + path)[k] == cur;
            assert(path[k - 1] == cur);
        }
    }
    lemma_last_index(cs, cur);
    assert(lookup(cs2, cur) == lookup(cs, cur));
    let cc = lookup(cs, cur)->0;
    match cc.parent {
        None => {
            assert((seq![id] + path).push(cur) =~= seq![id] + path.push(cur));
        },
        Some(p) => {
            lemma_walk_shifted(cs, id, c, p, path.push(cur), (fuel - 1) as nat, r);
            assert((seq![id] + path).push(cur) =~= seq![id] + path.push(cur));
        },
    }
}

/// After a successful append, the head is the new commit, and the chain is
/// the chain of the new commit's parent followed by the new id, where that
/// parent's chain resolved before the append.
pub proof fn law_append_advances_head(l: LedgerView, id: Seq<char>, c: CommitView, l2: LedgerView)
    requires
        commit_appended(l, id, c) == Ok::<LedgerView, Fault>(l2),
        commit_chain(LedgerView { head: c.parent->0, ..l }) is Ok,
    ensures
        l2.head == id,
        commit_chain(l2) == Ok::<Seq<Seq<char>>, Fault>(
            commit_chain(LedgerView { head: c.parent->0, ..l })->Ok_0.push(id),
        ),
        commit_chain(l2)->Ok_0.last() == id,
{
    let cs = l.commits;
    let p = c.parent->0;
    let n = cs.len();
    let from_parent = LedgerView { head: p, ..l };
    assert(l2 == with_commit(l, id, c));
    let cs2 = cs.push((id, c));
    assert(cs2.drop_last() == cs);
    assert(has_key(l2.commits, id));
    assert(lookup(cs2, id) == Some(c));
    let r = walk(cs, p, Seq::empty(), n)->Ok_0;
    lemma_walk_shifted(cs, id, c, p, Seq::empty(), n, r);
    assert(seq![id] + Seq::<Seq<char>>::empty() =~= Seq::<Seq<char>>::empty().push(id));
    assert(walk(cs2, id, Seq::empty(), n + 1) == walk(cs2, p, Seq::<Seq<char>>::empty().push(id), n));
    let full = seq![id] + r;
    assert(commit_chain(l2) == Ok::<Seq<Seq<char>>, Fault>(full.reverse()));
    assert(commit_chain(from_parent) == Ok::<Seq<Seq<char>>, Fault>(r.reverse()));
    assert(full.reverse() =~= r.reverse().push(id));
}

proof fn lemma_walk_cycles(cs: Seq<(Seq<char>, CommitView)>, ring: Set<Seq<char>>, cur: Seq<char>, path: Seq<Seq<char>>, fuel: nat)
    requires
        ring.contains(cur),
        forall|k: Seq<char>| #[trigger] ring.contains(k) ==> {
            let q = lookup(cs, k);
            q is Some && q->0.parent is Some && q->0.parent->0.len() > 0 && ring.contains(q->0.parent->0)
        },
    ensures
        walk(cs, cur, path, fuel) matches Err(f) && f.code == ErrorCode::CommitChainCycle,
    decreases fuel,
{
    let q = lookup(cs, cur)->0.parent;
    if !path.contains(cur) && fuel > 0 {
        lemma_walk_cycles(cs, ring, q->0, path.push(cur), (fuel - 1) as nat);
    }
}

/// When the head lies in a set of stored commits whose parents are all
/// non-empty ids of commits in the same set, the walk from the head can
/// only go round, and resolving the chain fails with a cycle.
pub proof fn law_cycle_detected(l: LedgerView, ring: Set<Seq<char>>)
    requires
        ring.contains(l.head),
        forall|k: Seq<char>| #[trigger] ring.contains(k) ==> {
            let q = lookup(l.commits, k);
            q is Some && q->0.parent is Some && q->0.parent->0.len() > 0 && ring.contains(q->0.parent->0)
        },
    ensures
        commit_chain(l) matches Err(f) && f.code == ErrorCode::CommitChainCycle,
{
    lemma_walk_cycles(l.commits, ring, l.head, Seq::empty(), l.commits.len());
}

/// Fuel beyond what the stored commits need changes no walk.
proof fn lemma_walk_fuel(cs: Seq<(Seq<char>, CommitView)>, cur: Seq<char>, path: Seq<Seq<char>>, f1: nat, f2: nat)
    requires
        path.no_duplicates(),
        forall|i: int| 0 <= i < path.len() ==> has_key(cs, #[trigger] path[i]),
        path.len() + f1 >= cs.len(),
        path.len() + f2 >= cs.len(),
    ensures
        walk(cs, cur, path, f1) == walk(cs, cur, path, f2),
    decreases f1,
{
    if !path.contains(cur) && lookup(cs, cur) is Some {
        let c = lookup(cs, cur)->0;
        if c.parent is Some && c.parent->0.len() > 0 {
            let np = path.push(cur);
            assert forall|a: int, b: int| 0 <= a < b < np.len() implies np[a] != np[b] by {
                if b == path.len() {
                    assert(np[a] == path[a]);
                    assert(path.contains(np[a]));
                }
            }
            assert forall|i: int| 0 <= i < np.len() implies has_key(cs, #[trigger] np[i]) by {
                if i < path.len() {
                    assert(np[i] == path[i]);
                }
            }
            crate::chain::lemma_path_bound(cs, np);
            lemma_walk_fuel(cs, c.parent->0, np, (f1 - 1) as nat, (f2 - 1) as nat);
        }
    }
}

proof fn lemma_walk_same_content(a: Seq<(Seq<char>, CommitView)>, b: Seq<(Seq<char>, CommitView)>, cur: Seq<char>, path: Seq<Seq<char>>, fuel: nat)
    requires
        forall|k: Seq<char>| #[trigger] lookup(a, k) == lookup(b, k),
    ensures
        walk(a, cur, path, fuel) == walk(b, cur, path, fuel),
    decreases fuel,
{
    assert(lookup(a, cur) == lookup(b, cur));
    if !path.contains(cur) && lookup(a, cur) is Some && fuel > 0 {
        let c = lookup(a, cur)->0;
        if c.parent is Some {
            lemma_walk_same_content(a, b, c.parent->0, path.push(cur), (fuel - 1) as nat);
        }
    }
}

proof fn lemma_replay_same_content(a: Seq<(Seq<char>, CommitView)>, b: Seq<(Seq<char>, CommitView)>, chain: Seq<Seq<char>>)
    requires
        forall|k: Seq<char>| #[trigger] lookup(a, k) == lookup(b, k),
    ensures
        replay_ids_of(a, chain) == replay_ids_of(b, chain),
    decreases chain.len(),
{
    if chain.len() > 0 {
        assert(lookup(a, chain.last()) == lookup(b, chain.last()));
        lemma_replay_same_content(a, b, chain.drop_last());
    }
}

/// Replay order depends on what the ledger holds, not on the order in
/// which its commits are stored: two ledgers with the same head and the
/// same commit under every id replay the same ids.
pub proof fn law_replay_depends_on_content(l1: LedgerView, l2: LedgerView)
    requires
        l1.head == l2.head,
        forall|k: Seq<char>| #[trigger] lookup(l1.commits, k) == lookup(l2.commits, k),
    ensures
        replay_entry_ids(l1) == replay_entry_ids(l2),
{
    let h = l1.head;
    let n1 = l1.commits.len();
    let n2 = l2.commits.len();
    let m = if n1 > n2 { n1 } else { n2 };
    let e = Seq::<Seq<char>>::empty();
    assert(lookup(l1.commits, h) == lookup(l2.commits, h));
    lemma_walk_fuel(l1.commits, h, e, n1, m);
    lemma_walk_same_content(l1.commits, l2.commits, h, e, m);
    lemma_walk_fuel(l2.commits, h, e, m, n2);
    assert(commit_chain(l1) == commit_chain(l2));
    if commit_chain(l1) is Ok {
        lemma_replay_same_content(l1.commits, l2.commits, crate::chain::after_root(commit_chain(l1)->Ok_0));
    }
}

} // verus!
