//! Entries, commits, the ledger container, their models and identities.

use vstd::prelude::*;
use crate::value::{Value, JVal, copy_value, lemma_members_view, members_view};
use crate::keyed::pairs_view;
use vstd::string::StrSliceExecFns;
use vstd::utf8::encode_utf8;
use crate::digest::{content_hash, hash_data};
use crate::canonical::canon;
use crate::text::{value_text, canonical_stringify};

verus! {

/// The tag that a genesis commit carries under `spec`.
pub const PROTOCOL_SPEC: &'static str = "concord-protocol@1.0";

/// The format tag of a ledger container.
pub const LEDGER_FORMAT: &'static str = "concord-ledger";

/// The version tag of a ledger container.
pub const LEDGER_VERSION: &'static str = "1.0";

/// An immutable record in the ledger.
#[derive(Debug, Clone, PartialEq, Eq)]
pub struct Entry {
    pub kind: String,
    pub timestamp: String,
    pub author: String,
    pub payload: Option<Value>,
    /// Not part of the entry's identity, so it can sign that identity.
    pub signature: Option<String>,
}

/// A node of the commit chain, naming entries by their ids.
#[derive(Debug, Clone, PartialEq, Eq)]
pub struct Commit {
    pub parent: Option<String>,
    pub timestamp: String,
    pub metadata: Option<Value>,
    pub entries: Vec<String>,
}

/// Commits and entries keyed by their ids, and the head of the active chain.
#[derive(Debug, Clone, PartialEq, Eq)]
pub struct LedgerContainer {
    pub format: String,
    pub version: String,
    pub commits: Vec<(String, Commit)>,
    pub entries: Vec<(String, Entry)>,
    pub head: String,
}

pub struct EntryView {
    pub kind: Seq<char>,
    pub timestamp: Seq<char>,
    pub author: Seq<char>,
    pub payload: Option<JVal>,
    pub signature: Option<Seq<char>>,
}

pub struct CommitView {
    pub parent: Option<Seq<char>>,
    pub timestamp: Seq<char>,
    pub metadata: Option<JVal>,
    pub entries: Seq<Seq<char>>,
}

pub struct LedgerView {
    pub format: Seq<char>,
    pub version: Seq<char>,
    pub commits: Seq<(Seq<char>, CommitView)>,
    pub entries: Seq<(Seq<char>, EntryView)>,
    pub head: Seq<char>,
}

pub open spec fn opt_text(s: Option<String>) -> Option<Seq<char>> {
    match s {
        Some(t) => Some(t@),
        None => None,
    }
}

pub open spec fn opt_value(v: Option<Value>) -> Option<JVal> {
    match v {
        Some(x) => Some(x@),
        None => None,
    }
}

/// The texts of a list of strings.
pub open spec fn texts(v: Seq<String>) -> Seq<Seq<char>> {
    v.map_values(|s: String| s@)
}

impl View for Entry {
    type V = EntryView;

    open spec fn view(&self) -> EntryView {
        EntryView {
            kind: self.kind@,
            timestamp: self.timestamp@,
            author: self.author@,
            payload: opt_value(self.payload),
            signature: opt_text(self.signature),
        }
    }
}

impl View for Commit {
    type V = CommitView;

    open spec fn view(&self) -> CommitView {
        CommitView {
            parent: opt_text(self.parent),
            timestamp: self.timestamp@,
            metadata: opt_value(self.metadata),
            entries: texts(self.entries@),
        }
    }
}

impl View for LedgerContainer {
    type V = LedgerView;

    open spec fn view(&self) -> LedgerView {
        LedgerView {
            format: self.format@,
            version: self.version@,
            commits: pairs_view(self.commits@),
            entries: pairs_view(self.entries@),
            head: self.head@,
        }
    }
}

/// No id is stored twice, among the commits or among the entries.
pub open spec fn ledger_keys_unique(l: LedgerView) -> bool {
    crate::keyed::unique_keys(l.commits) && crate::keyed::unique_keys(l.entries)
}

/// The kinds of failure.
#[derive(Debug, Clone, Copy, PartialEq, Eq, Structural)]
pub enum ErrorCode {
    MissingHead,
    MissingCommit,
    MissingEntry,
    InvalidParent,
    InvalidCommit,
    InvalidEntry,
    /// An entry whose payload has no canonical JSON form. The shape check
    /// of an entry reports such a payload first, under `InvalidEntry`, so no
    /// operation returns this code.
    InvalidEntryPayload,
    DuplicateCommit,
    DuplicateEntry,
    CommitIdMismatch,
    CommitChainCycle,
}

pub open spec fn code_name(c: ErrorCode) -> Seq<char> {
    match c {
        ErrorCode::MissingHead => "MISSING_HEAD"@,
        ErrorCode::MissingCommit => "MISSING_COMMIT"@,
        ErrorCode::MissingEntry => "MISSING_ENTRY"@,
        ErrorCode::InvalidParent => "INVALID_PARENT"@,
        ErrorCode::InvalidCommit => "INVALID_COMMIT"@,
        ErrorCode::InvalidEntry => "INVALID_ENTRY"@,
        ErrorCode::InvalidEntryPayload => "INVALID_ENTRY_PAYLOAD"@,
        ErrorCode::DuplicateCommit => "DUPLICATE_COMMIT"@,
        ErrorCode::DuplicateEntry => "DUPLICATE_ENTRY"@,
        ErrorCode::CommitIdMismatch => "COMMIT_ID_MISMATCH"@,
        ErrorCode::CommitChainCycle => "COMMIT_CHAIN_CYCLE"@,
    }
}

impl ErrorCode {
    /// The code as it crosses the boundary, such as `MISSING_HEAD`.
    pub fn as_str(&self) -> (r: &'static str)
        ensures
            r@ == code_name(*self),
    {
        match self {
            ErrorCode::MissingHead => "MISSING_HEAD",
            ErrorCode::MissingCommit => "MISSING_COMMIT",
            ErrorCode::MissingEntry => "MISSING_ENTRY",
            ErrorCode::InvalidParent => "INVALID_PARENT",
            ErrorCode::InvalidCommit => "INVALID_COMMIT",
            ErrorCode::InvalidEntry => "INVALID_ENTRY",
            ErrorCode::InvalidEntryPayload => "INVALID_ENTRY_PAYLOAD",
            ErrorCode::DuplicateCommit => "DUPLICATE_COMMIT",
            ErrorCode::DuplicateEntry => "DUPLICATE_ENTRY",
            ErrorCode::CommitIdMismatch => "COMMIT_ID_MISMATCH",
            ErrorCode::CommitChainCycle => "COMMIT_CHAIN_CYCLE",
        }
    }
}

/// A failure: its kind and a message for people.
#[derive(Debug, Clone, PartialEq, Eq)]
pub struct LedgerError {
    pub code: ErrorCode,
    pub message: String,
}

pub struct Fault {
    pub code: ErrorCode,
    pub message: Seq<char>,
}

impl View for LedgerError {
    type V = Fault;

    open spec fn view(&self) -> Fault {
        Fault { code: self.code, message: self.message@ }
    }
}

pub open spec fn fault(code: ErrorCode, message: Seq<char>) -> Fault {
    Fault { code, message }
}

/// The outcome `r` of an operation is the one its model `s` describes.
pub open spec fn same_outcome<T: View>(r: Result<T, LedgerError>, s: Result<T::V, Fault>) -> bool {
    match r {
        Ok(v) => s == Ok::<T::V, Fault>(v@),
        Err(e) => s == Err::<T::V, Fault>(e@),
    }
}

/// The outcome of a check that reports every violation.
#[derive(Debug, Clone, PartialEq, Eq)]
pub struct ValidationReport {
    pub ok: bool,
    pub errors: Vec<String>,
}

pub open spec fn opt_or_null(v: Option<JVal>) -> JVal {
    match v {
        Some(x) => x,
        None => JVal::Null,
    }
}

pub open spec fn opt_text_or_null(s: Option<Seq<char>>) -> JVal {
    match s {
        Some(t) => JVal::String(t),
        None => JVal::Null,
    }
}

/// The identity-bearing part of an entry: all but its signature.
pub open spec fn entry_core(e: EntryView) -> JVal {
    JVal::Object(
        seq![
            ("kind"@, JVal::String(e.kind)),
            ("timestamp"@, JVal::String(e.timestamp)),
            ("author"@, JVal::String(e.author)),
            ("payload"@, opt_or_null(e.payload)),
        ],
    )
}

/// The whole commit as a value.
pub open spec fn commit_record(c: CommitView) -> JVal {
    JVal::Object(
        seq![
            ("parent"@, opt_text_or_null(c.parent)),
            ("timestamp"@, JVal::String(c.timestamp)),
            ("metadata"@, opt_or_null(c.metadata)),
            ("entries"@, JVal::Array(c.entries.map_values(|id: Seq<char>| JVal::String(id)))),
        ],
    )
}

pub open spec fn entry_id(e: EntryView) -> Seq<char> {
    content_hash(entry_core(e))
}

pub open spec fn commit_id(c: CommitView) -> Seq<char> {
    content_hash(commit_record(c))
}

pub fn copy_text(s: &Option<String>) -> (r: Option<String>)
    ensures
        opt_text(r) == opt_text(*s),
{
    match s {
        Some(t) => Some(t.clone()),
        None => None,
    }
}

pub fn copy_optional(v: &Option<Value>) -> (r: Option<Value>)
    ensures
        opt_value(r) == opt_value(*v),
{
    match v {
        Some(x) => Some(copy_value(x)),
        None => None,
    }
}

pub fn copy_texts(v: &Vec<String>) -> (r: Vec<String>)
    ensures
        texts(r@) == texts(v@),
{
    let mut out: Vec<String> = Vec::new();
    let mut i: usize = 0;
    while i < v.len()
        invariant
            i <= v@.len(),
            out@.len() == i,
            forall|j: int| 0 <= j < i ==> #[trigger] out@[j]@ == v@[j]@,
        decreases v@.len() - i,
    {
        out.push(v[i].clone());
        i += 1;
    }
    assert(texts(out@) =~= texts(v@));
    out
}

impl Entry {
    /// A copy with the same model.
    pub fn copy(&self) -> (r: Entry)
        ensures
            r@ == self@,
    {
        Entry {
            kind: self.kind.clone(),
            timestamp: self.timestamp.clone(),
            author: self.author.clone(),
            payload: copy_optional(&self.payload),
            signature: copy_text(&self.signature),
        }
    }
}

impl Commit {
    /// A copy with the same model.
    pub fn copy(&self) -> (r: Commit)
        ensures
            r@ == self@,
    {
        Commit {
            parent: copy_text(&self.parent),
            timestamp: self.timestamp.clone(),
            metadata: copy_optional(&self.metadata),
            entries: copy_texts(&self.entries),
        }
    }
}

impl LedgerContainer {
    /// A copy with the same model.
    pub fn copy(&self) -> (r: LedgerContainer)
        ensures
            r@ == self@,
    {
        let mut commits: Vec<(String, Commit)> = Vec::new();
        let mut i: usize = 0;
        while i < self.commits.len()
            invariant
                i <= self.commits@.len(),
                commits@.len() == i,
                forall|j: int| 0 <= j < i ==> (#[trigger] commits@[j]).0@ == self.commits@[j].0@ && commits@[j].1@ == self.commits@[j].1@,
            decreases self.commits@.len() - i,
        {
            commits.push((self.commits[i].0.clone(), self.commits[i].1.copy()));
            i += 1;
        }
        let mut entries: Vec<(String, Entry)> = Vec::new();
        let mut i: usize = 0;
        while i < self.entries.len()
            invariant
                i <= self.entries@.len(),
                entries@.len() == i,
                forall|j: int| 0 <= j < i ==> (#[trigger] entries@[j]).0@ == self.entries@[j].0@ && entries@[j].1@ == self.entries@[j].1@,
            decreases self.entries@.len() - i,
        {
            entries.push((self.entries[i].0.clone(), self.entries[i].1.copy()));
            i += 1;
        }
        assert(pairs_view(commits@) =~= pairs_view(self.commits@));
        assert(pairs_view(entries@) =~= pairs_view(self.entries@));
        LedgerContainer {
            format: self.format.clone(),
            version: self.version.clone(),
            commits,
            entries,
            head: self.head.clone(),
        }
    }
}

fn member(key: &str, v: Value) -> (r: (String, Value))
    ensures
        r.0@ == key@,
        r.1@ == v@,
{
    (key.to_owned(), v)
}

fn optional_or_null(v: &Option<Value>) -> (r: Value)
    ensures
        r@ == opt_or_null(opt_value(*v)),
{
    match v {
        Some(x) => copy_value(x),
        None => Value::Null,
    }
}

/// The identity-bearing part of `entry` as a value.
pub fn entry_core_value(entry: &Entry) -> (r: Value)
    ensures
        r@ == entry_core(entry@),
{
    let mut ms: Vec<(String, Value)> = Vec::new();
    ms.push(member("kind", Value::String(entry.kind.clone())));
    ms.push(member("timestamp", Value::String(entry.timestamp.clone())));
    ms.push(member("author", Value::String(entry.author.clone())));
    ms.push(member("payload", optional_or_null(&entry.payload)));
    proof {
        lemma_members_view(ms@);
        assert(members_view(ms@) =~= entry_core(entry@)->Object_0);
    }
    Value::Object(ms)
}

/// `commit` as a value.
pub fn commit_value(commit: &Commit) -> (r: Value)
    ensures
        r@ == commit_record(commit@),
{
    let parent = match &commit.parent {
        Some(p) => Value::String(p.clone()),
        None => Value::Null,
    };
    let mut ids: Vec<Value> = Vec::new();
    let mut i: usize = 0;
    while i < commit.entries.len()
        invariant
            i <= commit.entries@.len(),
            ids@.len() == i,
            forall|j: int| 0 <= j < i ==> #[trigger] ids@[j]@ == JVal::String(commit.entries@[j]@),
        decreases commit.entries@.len() - i,
    {
        ids.push(Value::String(commit.entries[i].clone()));
        i += 1;
    }
    proof {
        crate::value::lemma_items_view(ids@);
        let target = commit@.entries.map_values(|id: Seq<char>| JVal::String(id));
        assert forall|j: int| 0 <= j < ids@.len() implies crate::value::items_view(ids@)[j] == target[j] by {
            assert(ids@[j]@ == JVal::String(commit.entries@[j]@));
        }
        assert(crate::value::items_view(ids@) =~= commit@.entries.map_values(|id: Seq<char>| JVal::String(id)));
    }
    let mut ms: Vec<(String, Value)> = Vec::new();
    ms.push(member("parent", parent));
    ms.push(member("timestamp", Value::String(commit.timestamp.clone())));
    ms.push(member("metadata", optional_or_null(&commit.metadata)));
    ms.push(member("entries", Value::Array(ids)));
    proof {
        lemma_members_view(ms@);
        assert(members_view(ms@) =~= commit_record(commit@)->Object_0);
    }
    Value::Object(ms)
}

/// The canonical text that a signature of `entry` covers: everything but
/// the signature.
pub fn get_entry_signing_payload(entry: &Entry) -> (r: String)
    ensures
        r@ == value_text(canon(entry_core(entry@))),
{
    canonical_stringify(&entry_core_value(entry))
}

/// The UTF-8 bytes of the signing payload of `entry`.
pub fn get_entry_signing_bytes(entry: &Entry) -> (r: Vec<u8>)
    ensures
        r@ == encode_utf8(value_text(canon(entry_core(entry@)))),
{
    let payload = get_entry_signing_payload(entry);
    payload.as_str().as_bytes_vec()
}

/// The EntryID of `entry`: the content hash of all but its signature.
pub fn derive_entry_id(entry: &Entry) -> (r: String)
    ensures
        r@ == entry_id(entry@),
        r@.len() == 64,
{
    hash_data(&entry_core_value(entry))
}

/// The CommitID of `commit`: the content hash of the whole commit.
pub fn derive_commit_id(commit: &Commit) -> (r: String)
    ensures
        r@ == commit_id(commit@),
        r@.len() == 64,
{
    hash_data(&commit_value(commit))
}

} // verus!
