//! The commit chain from the head back to genesis, and replay order.

use vstd::prelude::*;
use crate::keyed::{lookup, has_key, find_key, lemma_last_index};
use crate::record::{Entry, LedgerContainer, CommitView, EntryView, LedgerView, LedgerError, ErrorCode, Fault, fault, texts};
use crate::ops::{error, concat2, first_missing};

verus! {

/// Walks parent links from `cur`, with `path` the ids visited so far.
/// `fuel` bounds the steps; a walk that visits no id twice and only stored
/// commits never runs out, as it cannot outgrow the commits (see
/// [`lemma_path_bound`]).
pub open spec fn walk(cs: Seq<(Seq<char>, CommitView)>, cur: Seq<char>, path: Seq<Seq<char>>, fuel: nat) -> Result<Seq<Seq<char>>, Fault>
    decreases fuel,
{
    if path.contains(cur) {
        Err(fault(ErrorCode::CommitChainCycle, "Commit chain cycle detected at "@ + cur))
    } else {
        match lookup(cs, cur) {
            None => Err(fault(ErrorCode::MissingCommit, "Missing commit "@ + cur)),
            Some(c) => match c.parent {
                None => Ok(path.push(cur)),
                Some(p) => if p.len() == 0 {
                    Err(fault(ErrorCode::InvalidParent, "Commit parent must be null or a CommitID"@))
                } else if fuel == 0 {
                    Err(fault(ErrorCode::CommitChainCycle, "Commit chain cycle detected at "@ + p))
                } else {
                    walk(cs, p, path.push(cur), (fuel - 1) as nat)
                },
            },
        }
    }
}

/// The ids of the active chain, genesis first.
pub open spec fn commit_chain(l: LedgerView) -> Result<Seq<Seq<char>>, Fault> {
    if !has_key(l.commits, l.head) {
        Err(fault(ErrorCode::MissingHead, "Missing head commit "@ + l.head))
    } else {
        match walk(l.commits, l.head, Seq::empty(), l.commits.len()) {
            Ok(path) => Ok(path.reverse()),
            Err(f) => Err(f),
        }
    }
}

/// Distinct ids of stored commits are no more than the stored commits.
pub proof fn lemma_path_bound(cs: Seq<(Seq<char>, CommitView)>, path: Seq<Seq<char>>)
    requires
        path.no_duplicates(),
        forall|i: int| 0 <= i < path.len() ==> has_key(cs, #[trigger] path[i]),
    ensures
        path.len() <= cs.len(),
{
    let keys = cs.map_values(|p: (Seq<char>, CommitView)| p.0);
    assert forall|x: Seq<char>| path.to_set().contains(x) implies keys.to_set().contains(x) by {
        let i = choose|i: int| 0 <= i < path.len() && path[i] == x;
        lemma_last_index(cs, x);
        let j = crate::keyed::last_index(cs, x)->0;
        assert(keys[j] == x);
    }
    path.unique_seq_to_set();
    keys.lemma_cardinality_of_set();
    vstd::set_lib::lemma_len_subset(path.to_set(), keys.to_set());
}

fn contains_text(v: &Vec<String>, s: &String) -> (r: bool)
    ensures
        r == texts(v@).contains(s@),
{
    let mut i: usize = 0;
    while i < v.len()
        invariant
            i <= v@.len(),
            forall|j: int| 0 <= j < i ==> v@[j]@ != s@,
        decreases v@.len() - i,
    {
        if crate::order::same_text(v[i].as_str(), s.as_str()) {
            assert(texts(v@)[i as int] == s@);
            return true;
        }
        i += 1;
    }
    assert(!texts(v@).contains(s@)) by {
        if texts(v@).contains(s@) {
            let j = choose|j: int| 0 <= j < texts(v@).len() && texts(v@)[j] == s@;
            assert(v@[j]@ == s@);
        }
    }
    false
}

fn reversed(v: &Vec<String>) -> (r: Vec<String>)
    ensures
        texts(r@) == texts(v@).reverse(),
{
    let mut out: Vec<String> = Vec::new();
    let mut i: usize = v.len();
    while i > 0
        invariant
            i <= v@.len(),
            out@.len() == v@.len() - i,
            forall|j: int| 0 <= j < out@.len() ==> #[trigger] out@[j]@ == v@[v@.len() - 1 - j]@,
        decreases i,
    {
        out.push(v[i - 1].clone());
        i -= 1;
    }
    assert(texts(out@) =~= texts(v@).reverse());
    out
}

/// The commit ids from genesis to head, following parent links from the head.
pub fn get_commit_chain(ledger: &LedgerContainer) -> (r: Result<Vec<String>, LedgerError>)
    ensures
        match r {
            Ok(ids) => commit_chain(ledger@) == Ok::<Seq<Seq<char>>, Fault>(texts(ids@)),
            Err(e) => commit_chain(ledger@) == Err::<Seq<Seq<char>>, Fault>(e@),
        },
{
    let ghost cs = ledger@.commits;
    let ghost n = cs.len();
    if find_key(&ledger.commits, ledger.head.as_str()).is_none() {
        return Err(error(ErrorCode::MissingHead, concat2("Missing head commit ", ledger.head.as_str())));
    }
    let mut path: Vec<String> = Vec::new();
    let mut cur: String = ledger.head.clone();
    assert(texts(path@) =~= Seq::<Seq<char>>::empty());
    loop
        invariant
            cs == ledger@.commits,
            n == cs.len(),
            has_key(cs, ledger@.head),
            path@.len() <= n,
            texts(path@).no_duplicates(),
            forall|i: int| 0 <= i < path@.len() ==> has_key(cs, #[trigger] texts(path@)[i]),
            walk(cs, ledger@.head, Seq::empty(), n) == walk(cs, cur@, texts(path@), (n - path@.len()) as nat),
        decreases n - path@.len(),
    {
        let ghost fuel = (n - path@.len()) as nat;
        if contains_text(&path, &cur) {
            return Err(error(ErrorCode::CommitChainCycle, concat2("Commit chain cycle detected at ", cur.as_str())));
        }
        let i = match find_key(&ledger.commits, cur.as_str()) {
            Some(i) => i,
            None => {
                return Err(error(ErrorCode::MissingCommit, concat2("Missing commit ", cur.as_str())));
            },
        };
        let ghost before = texts(path@);
        path.push(cur.clone());
        proof {
            assert(texts(path@) =~= before.push(cur@));
            assert forall|a: int, b: int| 0 <= a < b < texts(path@).len() implies texts(path@)[a] != texts(path@)[b] by {
                if b == before.len() {
                    assert(before[a] == texts(path@)[a]);
                }
            }
            assert forall|k: int| 0 <= k < path@.len() implies has_key(cs, #[trigger] texts(path@)[k]) by {
                if k < before.len() {
                    assert(before[k] == texts(path@)[k]);
                }
            }
            lemma_path_bound(cs, texts(path@));
        }
        match &ledger.commits[i].1.parent {
            None => {
                let out = reversed(&path);
                return Ok(out);
            },
            Some(p) => {
                if p.as_str().is_empty() {
                    return Err(error(ErrorCode::InvalidParent, "Commit parent must be null or a CommitID".to_owned()));
                }
                assert(fuel > 0);
                cur = p.clone();
            },
        }
    }
}

/// The entry ids of the commits named by `ids`, in order, each commit's
/// in stored order.
pub open spec fn replay_ids_of(cs: Seq<(Seq<char>, CommitView)>, ids: Seq<Seq<char>>) -> Seq<Seq<char>>
    decreases ids.len(),
{
    if ids.len() == 0 {
        Seq::empty()
    } else {
        let front = replay_ids_of(cs, ids.drop_last());
        match lookup(cs, ids.last()) {
            Some(c) => front + c.entries,
            None => front,
        }
    }
}

/// The chain without its root, the genesis commit.
pub open spec fn after_root(chain: Seq<Seq<char>>) -> Seq<Seq<char>> {
    if chain.len() == 0 {
        chain
    } else {
        chain.drop_first()
    }
}

/// The replay order of entry ids: the chain's commits oldest first, the
/// genesis commit (the root) skipped, each contributing its entry ids in
/// stored order.
pub open spec fn replay_entry_ids(l: LedgerView) -> Result<Seq<Seq<char>>, Fault> {
    match commit_chain(l) {
        Ok(chain) => Ok(replay_ids_of(l.commits, after_root(chain))),
        Err(f) => Err(f),
    }
}

/// The entries in replay order.
pub open spec fn replay_entries(l: LedgerView) -> Result<Seq<EntryView>, Fault> {
    match replay_entry_ids(l) {
        Err(f) => Err(f),
        Ok(ids) => match first_missing(l.entries, ids) {
            Some(id) => Err(fault(ErrorCode::MissingEntry, "Missing entry "@ + id)),
            None => Ok(ids.map_values(|id: Seq<char>| lookup(l.entries, id)->0)),
        },
    }
}

pub open spec fn entry_views(v: Seq<Entry>) -> Seq<EntryView> {
    v.map_values(|e: Entry| e@)
}

/// Entry ids in replay order.
pub fn get_replay_entry_ids(ledger: &LedgerContainer) -> (r: Result<Vec<String>, LedgerError>)
    ensures
        match r {
            Ok(ids) => replay_entry_ids(ledger@) == Ok::<Seq<Seq<char>>, Fault>(texts(ids@)),
            Err(e) => replay_entry_ids(ledger@) == Err::<Seq<Seq<char>>, Fault>(e@),
        },
{
    let chain = match get_commit_chain(ledger) {
        Ok(c) => c,
        Err(e) => return Err(e),
    };
    let ghost cs = ledger@.commits;
    let mut out: Vec<String> = Vec::new();
    if chain.len() == 0 {
        assert(after_root(texts(chain@)) =~= Seq::<Seq<char>>::empty());
        assert(texts(out@) =~= Seq::<Seq<char>>::empty());
        return Ok(out);
    }
    let mut k: usize = 1;
    assert(texts(out@) =~= replay_ids_of(cs, texts(chain@).subrange(1, 1)));
    while k < chain.len()
        invariant
            1 <= k <= chain@.len(),
            cs == ledger@.commits,
            texts(out@) == replay_ids_of(cs, texts(chain@).subrange(1, k as int)),
        decreases chain@.len() - k,
    {
        let ghost prefix = texts(chain@).subrange(1, k + 1);
        assert(prefix.drop_last() =~= texts(chain@).subrange(1, k as int));
        assert(prefix.last() == chain@[k as int]@);
        match find_key(&ledger.commits, chain[k].as_str()) {
            Some(i) => {
                let c = &ledger.commits[i].1;
                let ghost before = texts(out@);
                let mut j: usize = 0;
                while j < c.entries.len()
                    invariant
                        j <= c.entries@.len(),
                        texts(out@) == before + texts(c.entries@).subrange(0, j as int),
                    decreases c.entries@.len() - j,
                {
                    let ghost prev = out@;
                    let t = c.entries[j].clone();
                    out.push(t);
                    assert(texts(out@) =~= texts(prev).push(c.entries@[j as int]@));
                    assert(texts(c.entries@).subrange(0, j + 1) =~= texts(c.entries@).subrange(0, j as int).push(c.entries@[j as int]@));
                    assert(texts(out@) =~= before + texts(c.entries@).subrange(0, j + 1));
                    j += 1;
                }
                assert(texts(c.entries@).subrange(0, c.entries@.len() as int) =~= texts(c.entries@));
            },
            None => {},
        }
        k += 1;
    }
    assert(texts(chain@).subrange(1, chain@.len() as int) =~= after_root(texts(chain@)));
    Ok(out)
}

/// Entries in replay order.
pub fn get_replay_entries(ledger: &LedgerContainer) -> (r: Result<Vec<Entry>, LedgerError>)
    ensures
        match r {
            Ok(es) => replay_entries(ledger@) == Ok::<Seq<EntryView>, Fault>(entry_views(es@)),
            Err(e) => replay_entries(ledger@) == Err::<Seq<EntryView>, Fault>(e@),
        },
{
    let ids = match get_replay_entry_ids(ledger) {
        Ok(ids) => ids,
        Err(e) => return Err(e),
    };
    let ghost all = texts(ids@);
    let ghost es = ledger@.entries;
    let mut out: Vec<Entry> = Vec::new();
    let mut k: usize = 0;
    assert(all.skip(0) =~= all);
    while k < ids.len()
        invariant
            k <= ids@.len(),
            all == texts(ids@),
            replay_entry_ids(ledger@) == Ok::<Seq<Seq<char>>, Fault>(all),
            es == ledger@.entries,
            out@.len() == k,
            first_missing(es, all) == first_missing(es, all.skip(k as int)),
            forall|j: int| 0 <= j < k ==> lookup(es, all[j]) == Some(#[trigger] out@[j]@),
            forall|j: int| 0 <= j < k ==> has_key(es, #[trigger] all[j]),
        decreases ids@.len() - k,
    {
        assert(all.skip(k as int)[0] == ids@[k as int]@);
        match find_key(&ledger.entries, ids[k].as_str()) {
            Some(i) => {
                out.push(ledger.entries[i].1.copy());
                assert(all.skip(k as int).drop_first() =~= all.skip(k + 1));
            },
            None => {
                return Err(error(ErrorCode::MissingEntry, concat2("Missing entry ", ids[k].as_str())));
            },
        }
        k += 1;
    }
    proof {
        assert(all.skip(k as int) =~= Seq::<Seq<char>>::empty());
        assert(entry_views(out@) =~= all.map_values(|id: Seq<char>| lookup(es, id)->0));
    }
    Ok(out)
}

} // verus!
