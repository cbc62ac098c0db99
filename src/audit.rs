//! A full structural audit of a ledger that reports every violation.

use vstd::prelude::*;
use crate::value::{Value, JVal, lemma_members_pairs, lemma_members_view};
use crate::keyed::{lookup, has_key, find_key, pairs_view, last_index};
use crate::record::{Commit, LedgerContainer, CommitView, EntryView, LedgerView, ValidationReport, Fault, texts, PROTOCOL_SPEC, LEDGER_FORMAT, LEDGER_VERSION};
use crate::checks::{note_if, entry_problems, commit_problems, entry_problem_list, commit_problem_list};
use crate::chain::{commit_chain, get_commit_chain, walk};
use crate::ops::{ledger_created, genesis_metadata, reserved_members};
use crate::ops::{concat2, concat3};
use crate::order::same_text;

verus! {

pub open spec fn header_problems(l: LedgerView) -> Seq<Seq<char>> {
    note_if(l.format != LEDGER_FORMAT@, "Ledger.format must be \"concord-ledger\""@)
        + note_if(l.version != LEDGER_VERSION@, "Ledger.version must be \"1.0\""@)
        + note_if(l.head.len() == 0, "Ledger.head must be a string"@)
}

pub open spec fn spec_tag_problems(meta: Seq<(Seq<char>, JVal)>, strict: bool) -> Seq<Seq<char>> {
    match lookup(meta, "spec"@) {
        Some(JVal::String(s)) => note_if(
            strict && s != PROTOCOL_SPEC@,
            "Genesis commit metadata.spec must be \"concord-protocol@1.0\""@,
        ),
        Some(_) => seq!["Genesis commit metadata.spec must be a string"@],
        None => seq!["Genesis commit metadata.spec is required"@],
    }
}

/// What is wrong with `g` as the root of the chain. With `strict` false,
/// any text is accepted as the spec tag.
pub open spec fn genesis_problems(g: CommitView, strict: bool) -> Seq<Seq<char>> {
    note_if(g.parent is Some, "Genesis commit parent must be null"@)
        + note_if(g.entries.len() > 0, "Genesis commit entries must be an empty array"@)
        + match g.metadata {
        Some(JVal::Object(meta)) => note_if(
            lookup(meta, "genesis"@) != Some(JVal::Bool(true)),
            "Genesis commit metadata.genesis must be true"@,
        ) + spec_tag_problems(meta, strict),
        _ => seq!["Genesis commit metadata must be an object"@],
    }
}

pub open spec fn chain_problems(l: LedgerView, strict: bool) -> Seq<Seq<char>> {
    match commit_chain(l) {
        Err(f) => seq![f.message],
        Ok(chain) => if chain.len() == 0 {
            Seq::empty()
        } else {
            match lookup(l.commits, chain[0]) {
                None => seq!["Genesis commit is missing"@],
                Some(g) => genesis_problems(g, strict),
            }
        },
    }
}

pub open spec fn prefixed(prefix: Seq<char>, msgs: Seq<Seq<char>>) -> Seq<Seq<char>> {
    msgs.map_values(|m: Seq<char>| prefix + m)
}

/// One message for each id of `ids` that `entries` lacks.
pub open spec fn missing_refs(cid: Seq<char>, ids: Seq<Seq<char>>, entries: Seq<(Seq<char>, EntryView)>) -> Seq<Seq<char>>
    decreases ids.len(),
{
    if ids.len() == 0 {
        Seq::empty()
    } else {
        missing_refs(cid, ids.drop_last(), entries) + note_if(
            !has_key(entries, ids.last()),
            "Commit "@ + cid + " references missing entry "@ + ids.last(),
        )
    }
}

/// The problems of every stored commit, reachable or not.
pub open spec fn stored_commit_problems(cs: Seq<(Seq<char>, CommitView)>, entries: Seq<(Seq<char>, EntryView)>) -> Seq<Seq<char>>
    decreases cs.len(),
{
    if cs.len() == 0 {
        Seq::empty()
    } else {
        let (id, c) = cs.last();
        stored_commit_problems(cs.drop_last(), entries) + prefixed("Commit "@ + id + ": "@, commit_problems(c))
            + missing_refs(id, c.entries, entries)
    }
}

/// The problems of every stored entry.
pub open spec fn stored_entry_problems(es: Seq<(Seq<char>, EntryView)>) -> Seq<Seq<char>>
    decreases es.len(),
{
    if es.len() == 0 {
        Seq::empty()
    } else {
        let (id, e) = es.last();
        stored_entry_problems(es.drop_last()) + prefixed("Entry "@ + id + ": "@, entry_problems(e))
    }
}

/// Every violation in the ledger: the container's own fields, the head,
/// the chain and its root, every stored commit and every stored entry.
pub open spec fn ledger_problems(l: LedgerView, strict: bool) -> Seq<Seq<char>> {
    header_problems(l)
        + note_if(!has_key(l.commits, l.head), "Ledger head "@ + l.head + " does not exist in commits"@)
        + chain_problems(l, strict) + stored_commit_problems(l.commits, l.entries)
        + stored_entry_problems(l.entries)
}

/// A ledger just created without metadata, at a non-empty time, has no
/// violation, under strict checking.
pub proof fn lemma_fresh_ledger_valid(t: Seq<char>, l: LedgerView)
    requires
        ledger_created(None, t) == Ok::<LedgerView, Fault>(l),
        t.len() > 0,
        l.head.len() > 0,
    ensures
        ledger_problems(l, true) == Seq::<Seq<char>>::empty(),
{
    reveal_strlit("genesis");
    reveal_strlit("spec");
    assert("genesis"@.len() == 7);
    assert("spec"@.len() == 4);
    let m = genesis_metadata(None)->Ok_0;
    let c = CommitView { parent: None, timestamp: t, metadata: Some(m), entries: Seq::empty() };
    let id = l.head;
    assert(l.commits == seq![(id, c)]);
    assert(header_problems(l) =~= Seq::<Seq<char>>::empty());
    assert(last_index(l.commits, id) == Some(0int)) by {
        assert(l.commits.drop_last() =~= Seq::<(Seq<char>, CommitView)>::empty());
    }
    assert(has_key(l.commits, id));
    assert(lookup(l.commits, id) == Some(c));
    assert(walk(l.commits, id, Seq::empty(), 1) == Ok::<Seq<Seq<char>>, Fault>(seq![id]));
    assert(seq![id].reverse() =~= seq![id]);
    assert(commit_chain(l) == Ok::<Seq<Seq<char>>, Fault>(seq![id]));
    let meta = reserved_members();
    assert(meta.drop_last() =~= seq![("genesis"@, JVal::Bool(true))]);
    assert(meta.last().0 != "genesis"@);
    assert(meta.drop_last().last().0 == "genesis"@);
    assert(last_index(meta.drop_last(), "genesis"@) == Some(0int));
    assert(last_index(meta, "genesis"@) == Some(0int));
    assert(lookup(meta, "genesis"@) == Some(JVal::Bool(true)));
    assert(lookup(meta, "spec"@) == Some(JVal::String(PROTOCOL_SPEC@)));
    assert(genesis_problems(c, true) =~= Seq::<Seq<char>>::empty());
    assert(chain_problems(l, true) =~= Seq::<Seq<char>>::empty());
    assert(commit_problems(c) =~= Seq::<Seq<char>>::empty());
    assert(l.commits.drop_last() =~= Seq::<(Seq<char>, CommitView)>::empty());
    assert(prefixed("Commit "@ + id + ": "@, commit_problems(c)) =~= Seq::<Seq<char>>::empty());
    assert(missing_refs(id, c.entries, l.entries) =~= Seq::<Seq<char>>::empty());
    assert(stored_commit_problems(l.commits.drop_last(), l.entries) =~= Seq::<Seq<char>>::empty());
    assert(l.commits.last() == (id, c));
    assert(stored_commit_problems(l.commits, l.entries) =~= Seq::<Seq<char>>::empty());
    assert(ledger_problems(l, true) =~= Seq::<Seq<char>>::empty());
}

fn note(out: &mut Vec<String>, cond: bool, message: String)
    ensures
        texts(final(out)@) == texts(old(out)@) + note_if(cond, message@),
{
    let ghost before = out@;
    if cond {
        out.push(message);
    }
    assert(texts(out@) =~= texts(before) + note_if(cond, message@));
}

fn extend_prefixed(out: &mut Vec<String>, prefix: &str, msgs: &Vec<String>)
    ensures
        texts(final(out)@) == texts(old(out)@) + prefixed(prefix@, texts(msgs@)),
{
    let ghost base = texts(out@);
    let mut i: usize = 0;
    while i < msgs.len()
        invariant
            i <= msgs@.len(),
            texts(out@) == base + prefixed(prefix@, texts(msgs@.subrange(0, i as int))),
        decreases msgs@.len() - i,
    {
        let ghost prev = out@;
        out.push(concat2(prefix, msgs[i].as_str()));
        assert(prefixed(prefix@, texts(msgs@.subrange(0, i + 1))) =~= prefixed(prefix@, texts(msgs@.subrange(0, i as int))).push(prefix@ + msgs@[i as int]@));
        assert(texts(out@) =~= texts(prev).push(prefix@ + msgs@[i as int]@));
        i += 1;
    }
    assert(msgs@.subrange(0, msgs@.len() as int) =~= msgs@);
}

fn member_of<'a>(ms: &'a Vec<(String, Value)>, key: &str) -> (r: Option<&'a Value>)
    ensures
        match r {
            Some(v) => lookup(crate::value::members_view(ms@), key@) == Some(v@),
            None => lookup(crate::value::members_view(ms@), key@) is None,
        },
{
    proof {
        lemma_members_pairs(ms@);
        lemma_members_view(ms@);
    }
    match find_key(ms, key) {
        Some(i) => Some(&ms[i].1),
        None => None,
    }
}

fn genesis_problem_list(g: &Commit, strict: bool) -> (r: Vec<String>)
    ensures
        texts(r@) == genesis_problems(g@, strict),
{
    let mut out: Vec<String> = Vec::new();
    assert(texts(out@) =~= Seq::<Seq<char>>::empty());
    note(&mut out, g.parent.is_some(), "Genesis commit parent must be null".to_owned());
    note(&mut out, g.entries.len() > 0, "Genesis commit entries must be an empty array".to_owned());
    let ghost two = texts(out@);
    assert(two =~= note_if(g@.parent is Some, "Genesis commit parent must be null"@)
        + note_if(g@.entries.len() > 0, "Genesis commit entries must be an empty array"@));
    match &g.metadata {
        Some(Value::Object(meta)) => {
            let ghost mv = crate::value::members_view(meta@);
            assert(g@.metadata == Some(JVal::Object(mv)));
            let marked = match member_of(meta, "genesis") {
                Some(Value::Bool(b)) => *b,
                _ => false,
            };
            assert(marked == (lookup(mv, "genesis"@) == Some(JVal::Bool(true))));
            note(&mut out, !marked, "Genesis commit metadata.genesis must be true".to_owned());
            let ghost three = texts(out@);
            match member_of(meta, "spec") {
                Some(Value::String(s)) => {
                    let wrong = strict && !same_text(s.as_str(), PROTOCOL_SPEC);
                    note(
                        &mut out,
                        wrong,
                        "Genesis commit metadata.spec must be \"concord-protocol@1.0\"".to_owned(),
                    );
                },
                Some(_) => out.push("Genesis commit metadata.spec must be a string".to_owned()),
                None => out.push("Genesis commit metadata.spec is required".to_owned()),
            }
            assert(texts(out@) =~= three + spec_tag_problems(mv, strict));
        },
        _ => {
            out.push("Genesis commit metadata must be an object".to_owned());
            assert(texts(out@) =~= two + seq!["Genesis commit metadata must be an object"@]);
        },
    }
    assert(texts(out@) =~= genesis_problems(g@, strict));
    out
}

/// Audits the whole ledger and reports every violation found. `strict_spec`
/// asks for the exact protocol tag in the genesis metadata.
pub fn validate_ledger(ledger: &LedgerContainer, strict_spec: bool) -> (r: ValidationReport)
    ensures
        texts(r.errors@) == ledger_problems(ledger@, strict_spec),
        r.ok == (ledger_problems(ledger@, strict_spec).len() == 0),
{
    let ghost l = ledger@;
    let mut out: Vec<String> = Vec::new();
    assert(texts(out@) =~= Seq::<Seq<char>>::empty());
    note(&mut out, !same_text(ledger.format.as_str(), LEDGER_FORMAT), "Ledger.format must be \"concord-ledger\"".to_owned());
    note(&mut out, !same_text(ledger.version.as_str(), LEDGER_VERSION), "Ledger.version must be \"1.0\"".to_owned());
    note(&mut out, ledger.head.as_str().is_empty(), "Ledger.head must be a string".to_owned());
    assert(texts(out@) =~= header_problems(l));
    let head_known = find_key(&ledger.commits, ledger.head.as_str()).is_some();
    note(&mut out, !head_known, concat3("Ledger head ", ledger.head.as_str(), " does not exist in commits"));
    let ghost after_head = texts(out@);
    match get_commit_chain(ledger) {
        Err(e) => {
            out.push(e.message);
        },
        Ok(chain) => {
            if chain.len() > 0 {
                match find_key(&ledger.commits, chain[0].as_str()) {
                    None => out.push("Genesis commit is missing".to_owned()),
                    Some(i) => {
                        let found = genesis_problem_list(&ledger.commits[i].1, strict_spec);
                        let mut j: usize = 0;
                        let ghost before = texts(out@);
                        while j < found.len()
                            invariant
                                j <= found@.len(),
                                texts(out@) == before + texts(found@).subrange(0, j as int),
                            decreases found@.len() - j,
                        {
                            let ghost prev = out@;
                            out.push(found[j].clone());
                            assert(texts(out@) =~= texts(prev).push(found@[j as int]@));
                            assert(texts(found@).subrange(0, j + 1) =~= texts(found@).subrange(0, j as int).push(found@[j as int]@));
                            j += 1;
                        }
                        assert(texts(found@).subrange(0, found@.len() as int) =~= texts(found@));
                    },
                }
            }
        },
    }
    assert(texts(out@) =~= after_head + chain_problems(l, strict_spec));
    let ghost after_chain = texts(out@);
    let mut k: usize = 0;
    assert(stored_commit_problems(l.commits.subrange(0, 0), l.entries) =~= Seq::<Seq<char>>::empty());
    assert(texts(out@) =~= after_chain + stored_commit_problems(l.commits.subrange(0, 0), l.entries));
    while k < ledger.commits.len()
        invariant
            k <= ledger.commits@.len(),
            l == ledger@,
            texts(out@) == after_chain + stored_commit_problems(l.commits.subrange(0, k as int), l.entries),
        decreases ledger.commits@.len() - k,
    {
        let cid = &ledger.commits[k].0;
        let c = &ledger.commits[k].1;
        let ghost sub = l.commits.subrange(0, k + 1);
        assert(sub.drop_last() =~= l.commits.subrange(0, k as int));
        assert(sub.last() == (cid@, c@));
        let ghost mid = texts(out@);
        let problems = commit_problem_list(c);
        let prefix = concat3("Commit ", cid.as_str(), ": ");
        extend_prefixed(&mut out, prefix.as_str(), &problems);
        let ghost refs_base = texts(out@);
        let ghost ids = texts(c.entries@);
        let mut j: usize = 0;
        assert(missing_refs(cid@, ids.subrange(0, 0), l.entries) =~= Seq::<Seq<char>>::empty());
        assert(texts(out@) =~= refs_base + missing_refs(cid@, ids.subrange(0, 0), l.entries));
        while j < c.entries.len()
            invariant
                j <= c.entries@.len(),
                l == ledger@,
                ids == texts(c.entries@),
                texts(out@) == refs_base + missing_refs(cid@, ids.subrange(0, j as int), l.entries),
            decreases c.entries@.len() - j,
        {
            let known = find_key(&ledger.entries, c.entries[j].as_str()).is_some();
            let msg = concat3(
                concat2("Commit ", cid.as_str()).as_str(),
                " references missing entry ",
                c.entries[j].as_str(),
            );
            note(&mut out, !known, msg);
            assert(ids.subrange(0, j + 1).drop_last() =~= ids.subrange(0, j as int));
            assert(ids.subrange(0, j + 1).last() == c.entries@[j as int]@);
            j += 1;
        }
        assert(ids.subrange(0, ids.len() as int) =~= ids);
        k += 1;
    }
    assert(l.commits.subrange(0, l.commits.len() as int) =~= l.commits);
    let ghost after_commits = texts(out@);
    let mut k: usize = 0;
    assert(stored_entry_problems(l.entries.subrange(0, 0)) =~= Seq::<Seq<char>>::empty());
    assert(texts(out@) =~= after_commits + stored_entry_problems(l.entries.subrange(0, 0)));
    while k < ledger.entries.len()
        invariant
            k <= ledger.entries@.len(),
            l == ledger@,
            texts(out@) == after_commits + stored_entry_problems(l.entries.subrange(0, k as int)),
        decreases ledger.entries@.len() - k,
    {
        let eid = &ledger.entries[k].0;
        let e = &ledger.entries[k].1;
        let ghost sub = l.entries.subrange(0, k + 1);
        assert(sub.drop_last() =~= l.entries.subrange(0, k as int));
        assert(sub.last() == (eid@, e@));
        let problems = entry_problem_list(e);
        let prefix = concat3("Entry ", eid.as_str(), ": ");
        extend_prefixed(&mut out, prefix.as_str(), &problems);
        k += 1;
    }
    assert(l.entries.subrange(0, l.entries.len() as int) =~= l.entries);
    assert(texts(out@) =~= ledger_problems(l, strict_spec));
    let ok = out.len() == 0;
    ValidationReport { ok, errors: out }
}

} // verus!
