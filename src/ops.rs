//! Operations that build commits and grow a ledger. Each checks its
//! conditions in a fixed order, stops at the first failure, and leaves its
//! input untouched.

use vstd::prelude::*;
use crate::value::{Value, JVal, members_view, lemma_members_view, lemma_members_pairs, copy_value};
use crate::keyed::{last_index, lookup, has_key, pairs_view, find_key, lemma_push_new_key};
use crate::record::{Entry, Commit, LedgerContainer, EntryView, CommitView, LedgerView, LedgerError, ErrorCode, Fault, fault, same_outcome, texts, opt_text, opt_value, opt_or_null, entry_id, commit_id, derive_entry_id, derive_commit_id, PROTOCOL_SPEC, LEDGER_FORMAT, LEDGER_VERSION, ledger_keys_unique};
use crate::checks::{entry_problems, commit_problems, join, entry_problem_list, commit_problem_list, join_texts};

verus! {

/// Relies on chrono::Utc::now and DateTime::to_rfc3339_opts: the current
/// time as ISO-8601 text with milliseconds, which always writes a full date
/// and time. Nothing more is known of the value.
#[verifier::external_body]
fn now_iso() -> (r: String)
    ensures
        r@.len() > 0,
{
    chrono::Utc::now().to_rfc3339_opts(chrono::SecondsFormat::Millis, true)
}

/// `a` followed by `b`.
pub(crate) fn concat2(a: &str, b: &str) -> (r: String)
    ensures
        r@ == a@ + b@,
{
    let mut m = a.to_owned();
    m.append(b);
    m
}

/// `a`, `b` and `c` in turn.
pub(crate) fn concat3(a: &str, b: &str, c: &str) -> (r: String)
    ensures
        r@ == a@ + b@ + c@,
{
    let mut m = a.to_owned();
    m.append(b);
    m.append(c);
    m
}

pub(crate) fn error(code: ErrorCode, message: String) -> (r: LedgerError)
    ensures
        r@ == fault(code, message@),
{
    LedgerError { code, message }
}

/// The first of `ids` with no entry in `entries`.
pub open spec fn first_missing(entries: Seq<(Seq<char>, EntryView)>, ids: Seq<Seq<char>>) -> Option<Seq<char>>
    decreases ids.len(),
{
    if ids.len() == 0 {
        None
    } else if !has_key(entries, ids[0]) {
        Some(ids[0])
    } else {
        first_missing(entries, ids.drop_first())
    }
}

/// Whether a commit carries the genesis mark: `genesis: true` in its
/// metadata object.
pub open spec fn is_genesis(c: CommitView) -> bool {
    match c.metadata {
        Some(JVal::Object(ms)) => match lookup(ms, "genesis"@) {
            Some(JVal::Bool(b)) => b,
            _ => false,
        },
        _ => false,
    }
}

pub open spec fn with_entry(l: LedgerView, id: Seq<char>, e: EntryView) -> LedgerView {
    LedgerView {
        format: l.format,
        version: l.version,
        commits: l.commits,
        entries: l.entries.push((id, e)),
        head: l.head,
    }
}

pub open spec fn with_commit(l: LedgerView, id: Seq<char>, c: CommitView) -> LedgerView {
    LedgerView {
        format: l.format,
        version: l.version,
        commits: l.commits.push((id, c)),
        entries: l.entries,
        head: id,
    }
}

/// What appending an entry gives.
pub open spec fn entry_appended(l: LedgerView, e: EntryView) -> Result<(Seq<char>, LedgerView), Fault> {
    let problems = entry_problems(e);
    let id = entry_id(e);
    if problems.len() > 0 {
        Err(fault(ErrorCode::InvalidEntry, join(problems, "; "@)))
    } else if has_key(l.entries, id) {
        Err(fault(ErrorCode::DuplicateEntry, "Entry "@ + id + " already exists"@))
    } else {
        Ok((id, with_entry(l, id, e)))
    }
}

/// What building a commit on `l` gives, at a known time.
pub open spec fn commit_built(
    l: LedgerView,
    ids: Seq<Seq<char>>,
    metadata: Option<JVal>,
    timestamp: Seq<char>,
    parent: Option<Seq<char>>,
) -> Result<(Seq<char>, CommitView), Fault> {
    let p = match parent {
        Some(p) => p,
        None => l.head,
    };
    match first_missing(l.entries, ids) {
        Some(missing) => Err(fault(ErrorCode::MissingEntry, "Missing entry "@ + missing)),
        None => if p.len() == 0 {
            Err(fault(ErrorCode::InvalidParent, "Non-genesis commits must reference a parent"@))
        } else if !has_key(l.commits, p) {
            Err(fault(ErrorCode::MissingCommit, "Missing commit "@ + p))
        } else {
            let c = CommitView {
                parent: Some(p),
                timestamp,
                metadata: Some(opt_or_null(metadata)),
                entries: ids,
            };
            Ok((commit_id(c), c))
        },
    }
}

/// What appending commit `c` under `id` gives.
pub open spec fn commit_appended(l: LedgerView, id: Seq<char>, c: CommitView) -> Result<LedgerView, Fault> {
    let problems = commit_problems(c);
    if is_genesis(c) {
        Err(fault(ErrorCode::InvalidCommit, "Genesis commits must be created via create_ledger"@))
    } else if c.parent is None || c.parent->0.len() == 0 {
        Err(fault(ErrorCode::InvalidParent, "Commit parent must be a non-empty CommitID"@))
    } else if !has_key(l.commits, c.parent->0) {
        Err(fault(ErrorCode::MissingCommit, "Missing commit "@ + c.parent->0))
    } else if problems.len() > 0 {
        Err(fault(ErrorCode::InvalidCommit, join(problems, "; "@)))
    } else if first_missing(l.entries, c.entries) is Some {
        Err(fault(ErrorCode::MissingEntry, "Missing entry "@ + first_missing(l.entries, c.entries)->0))
    } else if has_key(l.commits, id) {
        Err(fault(ErrorCode::DuplicateCommit, "Commit "@ + id + " already exists"@))
    } else {
        Ok(with_commit(l, id, c))
    }
}

/// What appending with a check of the id against the content gives.
pub open spec fn commit_appended_strict(l: LedgerView, id: Seq<char>, c: CommitView) -> Result<LedgerView, Fault> {
    if commit_id(c) != id {
        Err(fault(ErrorCode::CommitIdMismatch, "CommitID does not match commit content"@))
    } else {
        commit_appended(l, id, c)
    }
}

/// The members that every genesis metadata object starts with.
pub open spec fn reserved_members() -> Seq<(Seq<char>, JVal)> {
    seq![("genesis"@, JVal::Bool(true)), ("spec"@, JVal::String(PROTOCOL_SPEC@))]
}

/// Sets member `m`: replaces the value under its key, or adds it at the end.
pub open spec fn put(s: Seq<(Seq<char>, JVal)>, m: (Seq<char>, JVal)) -> Seq<(Seq<char>, JVal)> {
    match last_index(s, m.0) {
        Some(i) => s.update(i, m),
        None => s.push(m),
    }
}

/// Sets each member of `ms` in turn.
pub open spec fn put_all(base: Seq<(Seq<char>, JVal)>, ms: Seq<(Seq<char>, JVal)>) -> Seq<(Seq<char>, JVal)>
    decreases ms.len(),
{
    if ms.len() == 0 {
        base
    } else {
        put(put_all(base, ms.drop_last()), ms.last())
    }
}

/// The genesis metadata: the reserved members, then the caller's, which
/// may replace them.
pub open spec fn genesis_metadata(metadata: Option<JVal>) -> Result<JVal, Fault> {
    match metadata {
        Some(JVal::Object(ms)) => Ok(JVal::Object(put_all(reserved_members(), ms))),
        Some(JVal::Null) | None => Ok(JVal::Object(reserved_members())),
        _ => Err(fault(ErrorCode::InvalidCommit, "metadata must be an object or null"@)),
    }
}

/// What building a genesis commit gives, at a known time.
pub open spec fn genesis_built(metadata: Option<JVal>, timestamp: Seq<char>) -> Result<(Seq<char>, CommitView), Fault> {
    match genesis_metadata(metadata) {
        Ok(m) => {
            let c = CommitView { parent: None, timestamp, metadata: Some(m), entries: Seq::empty() };
            Ok((commit_id(c), c))
        },
        Err(f) => Err(f),
    }
}

/// A fresh ledger holding only the genesis commit.
pub open spec fn ledger_created(metadata: Option<JVal>, timestamp: Seq<char>) -> Result<LedgerView, Fault> {
    match genesis_built(metadata, timestamp) {
        Ok((id, c)) => Ok(
            LedgerView {
                format: LEDGER_FORMAT@,
                version: LEDGER_VERSION@,
                commits: seq![(id, c)],
                entries: Seq::empty(),
                head: id,
            },
        ),
        Err(f) => Err(f),
    }
}

fn has_entry(ledger: &LedgerContainer, id: &str) -> (r: bool)
    ensures
        r == has_key(ledger@.entries, id@),
{
    find_key(&ledger.entries, id).is_some()
}

fn has_commit(ledger: &LedgerContainer, id: &str) -> (r: bool)
    ensures
        r == has_key(ledger@.commits, id@),
{
    find_key(&ledger.commits, id).is_some()
}

/// The first of `ids` that `ledger` holds no entry for.
pub fn find_missing_entry(ledger: &LedgerContainer, ids: &Vec<String>) -> (r: Option<usize>)
    ensures
        match r {
            Some(i) => i < ids@.len() && first_missing(ledger@.entries, texts(ids@)) == Some(ids@[i as int]@),
            None => first_missing(ledger@.entries, texts(ids@)) is None,
        },
{
    let ghost all = texts(ids@);
    let mut i: usize = 0;
    assert(all.skip(0) =~= all);
    while i < ids.len()
        invariant
            i <= ids@.len(),
            all == texts(ids@),
            first_missing(ledger@.entries, all) == first_missing(ledger@.entries, all.skip(i as int)),
        decreases ids@.len() - i,
    {
        assert(all.skip(i as int)[0] == ids@[i as int]@);
        if !has_entry(ledger, ids[i].as_str()) {
            return Some(i);
        }
        assert(all.skip(i as int).drop_first() =~= all.skip(i + 1));
        i += 1;
    }
    None
}

/// Whether `commit` carries the genesis mark.
pub fn is_genesis_commit(commit: &Commit) -> (r: bool)
    ensures
        r == is_genesis(commit@),
{
    match &commit.metadata {
        Some(Value::Object(ms)) => {
            proof {
                lemma_members_pairs(ms@);
                lemma_members_view(ms@);
            }
            match find_key(ms, "genesis") {
                Some(i) => match &ms[i].1 {
                    Value::Bool(b) => *b,
                    _ => false,
                },
                None => false,
            }
        },
        _ => false,
    }
}

/// Adds `entry` to a copy of `ledger`, under its EntryID.
pub fn append_entry(ledger: &LedgerContainer, entry: &Entry) -> (r: Result<(String, LedgerContainer), LedgerError>)
    ensures
        same_outcome(r, entry_appended(ledger@, entry@)),
        r is Ok && ledger_keys_unique(ledger@) ==> ledger_keys_unique(r->Ok_0.1@),
{
    let problems = entry_problem_list(entry);
    if problems.len() > 0 {
        return Err(error(ErrorCode::InvalidEntry, join_texts(&problems, "; ")));
    }
    let id = derive_entry_id(entry);
    if has_entry(ledger, id.as_str()) {
        return Err(error(ErrorCode::DuplicateEntry, concat3("Entry ", id.as_str(), " already exists")));
    }
    let mut out = ledger.copy();
    out.entries.push((id.clone(), entry.copy()));
    assert(out@.entries =~= ledger@.entries.push((id@, entry@)));
    assert(out@ == with_entry(ledger@, id@, entry@));
    proof {
        if ledger_keys_unique(ledger@) {
            lemma_push_new_key(ledger@.entries, id@, entry@);
        }
    }
    Ok((id, out))
}

/// Builds a commit on `ledger` at the given time, without changing the
/// ledger. The parent is `parent`, or else the ledger's head.
pub fn create_commit_at(
    ledger: &LedgerContainer,
    entries: Vec<String>,
    metadata: Option<Value>,
    timestamp: String,
    parent: Option<String>,
) -> (r: Result<(String, Commit), LedgerError>)
    ensures
        same_outcome(r, commit_built(ledger@, texts(entries@), opt_value(metadata), timestamp@, opt_text(parent))),
{
    if let Some(i) = find_missing_entry(ledger, &entries) {
        return Err(error(ErrorCode::MissingEntry, concat2("Missing entry ", entries[i].as_str())));
    }
    let p = match parent {
        Some(p) => p,
        None => ledger.head.clone(),
    };
    if p.as_str().is_empty() {
        return Err(error(ErrorCode::InvalidParent, "Non-genesis commits must reference a parent".to_owned()));
    }
    if !has_commit(ledger, p.as_str()) {
        return Err(error(ErrorCode::MissingCommit, concat2("Missing commit ", p.as_str())));
    }
    let meta = match metadata {
        Some(m) => m,
        None => Value::Null,
    };
    let commit = Commit { parent: Some(p), timestamp, metadata: Some(meta), entries };
    let id = derive_commit_id(&commit);
    Ok((id, commit))
}

/// Builds a commit on `ledger`, stamped with `timestamp` or else with the
/// current time.
pub fn create_commit(
    ledger: &LedgerContainer,
    entries: Vec<String>,
    metadata: Option<Value>,
    timestamp: Option<String>,
    parent: Option<String>,
) -> (r: Result<(String, Commit), LedgerError>)
    ensures
        exists|t: Seq<char>|
            {
                &&& (timestamp is Some ==> t == timestamp->0@)
                &&& (timestamp is None ==> t.len() > 0)
                &&& same_outcome(r, #[trigger] commit_built(ledger@, texts(entries@), opt_value(metadata), t, opt_text(parent)))
            },
{
    let t = match timestamp {
        Some(t) => t,
        None => now_iso(),
    };
    let ghost tv = t@;
    let r = create_commit_at(ledger, entries, metadata, t, parent);
    assert(timestamp is Some ==> tv == timestamp->0@);
    assert(timestamp is None ==> tv.len() > 0);
    r
}

/// Appends `commit` under `commit_id` to a copy of `ledger` and makes it
/// the head.
pub fn append_commit(ledger: &LedgerContainer, commit_id: &str, commit: &Commit) -> (r: Result<LedgerContainer, LedgerError>)
    ensures
        same_outcome(r, commit_appended(ledger@, commit_id@, commit@)),
        r is Ok && ledger_keys_unique(ledger@) ==> ledger_keys_unique(r->Ok_0@),
{
    if is_genesis_commit(commit) {
        return Err(error(ErrorCode::InvalidCommit, "Genesis commits must be created via create_ledger".to_owned()));
    }
    match &commit.parent {
        Some(p) => {
            if p.as_str().is_empty() {
                return Err(error(ErrorCode::InvalidParent, "Commit parent must be a non-empty CommitID".to_owned()));
            }
            if !has_commit(ledger, p.as_str()) {
                return Err(error(ErrorCode::MissingCommit, concat2("Missing commit ", p.as_str())));
            }
        },
        None => {
            return Err(error(ErrorCode::InvalidParent, "Commit parent must be a non-empty CommitID".to_owned()));
        },
    }
    let problems = commit_problem_list(commit);
    if problems.len() > 0 {
        return Err(error(ErrorCode::InvalidCommit, join_texts(&problems, "; ")));
    }
    if let Some(i) = find_missing_entry(ledger, &commit.entries) {
        return Err(error(ErrorCode::MissingEntry, concat2("Missing entry ", commit.entries[i].as_str())));
    }
    if has_commit(ledger, commit_id) {
        return Err(error(ErrorCode::DuplicateCommit, concat3("Commit ", commit_id, " already exists")));
    }
    let mut out = ledger.copy();
    out.commits.push((commit_id.to_owned(), commit.copy()));
    out.head = commit_id.to_owned();
    assert(out@.commits =~= ledger@.commits.push((commit_id@, commit@)));
    assert(out@ == with_commit(ledger@, commit_id@, commit@));
    proof {
        if ledger_keys_unique(ledger@) {
            lemma_push_new_key(ledger@.commits, commit_id@, commit@);
        }
    }
    Ok(out)
}

/// Like [`append_commit`], after checking that `commit_id` is the CommitID
/// of `commit`.
pub fn append_commit_strict(ledger: &LedgerContainer, commit_id: &str, commit: &Commit) -> (r: Result<LedgerContainer, LedgerError>)
    ensures
        same_outcome(r, commit_appended_strict(ledger@, commit_id@, commit@)),
        r is Ok && ledger_keys_unique(ledger@) ==> ledger_keys_unique(r->Ok_0@),
{
    let derived = derive_commit_id(commit);
    if !crate::order::same_text(derived.as_str(), commit_id) {
        return Err(error(ErrorCode::CommitIdMismatch, "CommitID does not match commit content".to_owned()));
    }
    append_commit(ledger, commit_id, commit)
}

fn reserved_metadata() -> (r: Vec<(String, Value)>)
    ensures
        members_view(r@) == reserved_members(),
{
    let mut out: Vec<(String, Value)> = Vec::new();
    out.push(("genesis".to_owned(), Value::Bool(true)));
    out.push(("spec".to_owned(), Value::String(PROTOCOL_SPEC.to_owned())));
    proof {
        lemma_members_view(out@);
        assert(members_view(out@) =~= reserved_members());
    }
    out
}

/// The genesis metadata object for the caller's `metadata`.
pub fn build_genesis_metadata(metadata: &Option<Value>) -> (r: Result<Value, LedgerError>)
    ensures
        same_outcome(r, genesis_metadata(opt_value(*metadata))),
{
    match metadata {
        Some(Value::Object(ms)) => {
            let mut out = reserved_metadata();
            let mut i: usize = 0;
            while i < ms.len()
                invariant
                    i <= ms@.len(),
                    members_view(out@) == put_all(reserved_members(), members_view(ms@.subrange(0, i as int))),
                decreases ms@.len() - i,
            {
                let key = ms[i].0.clone();
                let v = copy_value(&ms[i].1);
                let ghost prev = members_view(out@);
                let ghost m = (key@, v@);
                proof {
                    lemma_members_pairs(out@);
                    lemma_members_view(out@);
                    lemma_members_view(ms@.subrange(0, i + 1));
                    lemma_members_view(ms@.subrange(0, i as int));
                    let next = members_view(ms@.subrange(0, i + 1));
                    assert(next.drop_last() =~= members_view(ms@.subrange(0, i as int)));
                    assert(next.last() == m);
                }
                match find_key(&out, key.as_str()) {
                    Some(j) => {
                        out.set(j, (key, v));
                        proof {
                            lemma_members_view(out@);
                            assert(members_view(out@) =~= prev.update(j as int, m));
                        }
                    },
                    None => {
                        out.push((key, v));
                        proof {
                            lemma_members_view(out@);
                            assert(members_view(out@) =~= prev.push(m));
                        }
                    },
                }
                i += 1;
            }
            assert(ms@.subrange(0, ms@.len() as int) =~= ms@);
            Ok(Value::Object(out))
        },
        Some(Value::Null) | None => Ok(Value::Object(reserved_metadata())),
        _ => Err(error(ErrorCode::InvalidCommit, "metadata must be an object or null".to_owned())),
    }
}

/// Builds a genesis commit at the given time.
pub fn create_genesis_commit_at(metadata: &Option<Value>, timestamp: String) -> (r: Result<(String, Commit), LedgerError>)
    ensures
        same_outcome(r, genesis_built(opt_value(*metadata), timestamp@)),
        r is Ok ==> r->Ok_0.0@.len() == 64,
{
    let meta = match build_genesis_metadata(metadata) {
        Ok(m) => m,
        Err(e) => return Err(e),
    };
    let commit = Commit { parent: None, timestamp, metadata: Some(meta), entries: Vec::new() };
    assert(commit@.entries =~= Seq::<Seq<char>>::empty());
    let id = derive_commit_id(&commit);
    Ok((id, commit))
}

/// Builds a genesis commit, stamped with `timestamp` or else with the
/// current time.
pub fn create_genesis_commit(metadata: &Option<Value>, timestamp: Option<String>) -> (r: Result<(String, Commit), LedgerError>)
    ensures
        exists|t: Seq<char>|
            {
                &&& (timestamp is Some ==> t == timestamp->0@)
                &&& (timestamp is None ==> t.len() > 0)
                &&& same_outcome(r, #[trigger] genesis_built(opt_value(*metadata), t))
            },
{
    let t = match timestamp {
        Some(t) => t,
        None => now_iso(),
    };
    let ghost tv = t@;
    let r = create_genesis_commit_at(metadata, t);
    assert(timestamp is Some ==> tv == timestamp->0@);
    assert(timestamp is None ==> tv.len() > 0);
    r
}

/// A new ledger whose only commit is its genesis, made at the given time.
pub fn create_ledger_at(metadata: &Option<Value>, timestamp: String) -> (r: Result<LedgerContainer, LedgerError>)
    ensures
        same_outcome(r, ledger_created(opt_value(*metadata), timestamp@)),
        r is Ok ==> ledger_keys_unique(r->Ok_0@),
        *metadata is None && timestamp@.len() > 0 ==> r is Ok && crate::audit::ledger_problems(r->Ok_0@, true).len() == 0,
{
    let (id, commit) = match create_genesis_commit_at(metadata, timestamp) {
        Ok(p) => p,
        Err(e) => return Err(e),
    };
    let mut commits: Vec<(String, Commit)> = Vec::new();
    commits.push((id.clone(), commit));
    let l = LedgerContainer {
        format: LEDGER_FORMAT.to_owned(),
        version: LEDGER_VERSION.to_owned(),
        commits,
        entries: Vec::new(),
        head: id,
    };
    assert(l@.commits =~= seq![(l.head@, l.commits@[0].1@)]);
    assert(l@.entries =~= Seq::<(Seq<char>, EntryView)>::empty());
    proof {
        if metadata is None && l.commits@[0].1.timestamp@.len() > 0 {
            crate::audit::lemma_fresh_ledger_valid(l.commits@[0].1.timestamp@, l@);
        }
    }
    Ok(l)
}

/// A new ledger whose only commit is its genesis, stamped with `timestamp`
/// or else with the current time.
pub fn create_ledger(metadata: &Option<Value>, timestamp: Option<String>) -> (r: Result<LedgerContainer, LedgerError>)
    ensures
        exists|t: Seq<char>|
            {
                &&& (timestamp is Some ==> t == timestamp->0@)
                &&& (timestamp is None ==> t.len() > 0)
                &&& same_outcome(r, #[trigger] ledger_created(opt_value(*metadata), t))
            },
        r is Ok ==> ledger_keys_unique(r->Ok_0@),
        *metadata is None && (timestamp is Some ==> timestamp->0@.len() > 0) ==> r is Ok
            && crate::audit::ledger_problems(r->Ok_0@, true).len() == 0,
{
    let t = match timestamp {
        Some(t) => t,
        None => now_iso(),
    };
    let ghost tv = t@;
    let r = create_ledger_at(metadata, t);
    assert(timestamp is Some ==> tv == timestamp->0@);
    assert(timestamp is None ==> tv.len() > 0);
    r
}

} // verus!
