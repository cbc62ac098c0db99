use concord_protocol::audit::validate_ledger;
use concord_protocol::chain::{get_commit_chain, get_replay_entries, get_replay_entry_ids};
use concord_protocol::checks::{validate_commit, validate_entry};
use concord_protocol::ops::{
    append_commit, append_commit_strict, append_entry, build_genesis_metadata, create_commit,
    create_commit_at, create_genesis_commit, create_genesis_commit_at, create_ledger, create_ledger_at,
    is_genesis_commit,
};
use concord_protocol::record::{
    derive_commit_id, derive_entry_id, Commit, Entry, ErrorCode, LedgerContainer, LEDGER_FORMAT,
    LEDGER_VERSION, PROTOCOL_SPEC,
};
use concord_protocol::value::Value;

const E1: &str = "2551fb47fab770759ee3890b3e4d00b123729e7dc5749e4d467729c500bb0131";
const G: &str = "a0529196de03369866737925db74431d738533cd485ba71d511e084455f3b54d";
const C1: &str = "4fffc4ea0db416208b9f92f299d625d864d937d59bb169b06a420d443b436ec7";

fn s(t: &str) -> String {
    t.to_string()
}

fn entry(kind: &str, ts: &str, author: &str) -> Entry {
    Entry {
        kind: s(kind),
        timestamp: s(ts),
        author: s(author),
        payload: Some(Value::Object(vec![(s("msg"), Value::String(s("hi")))])),
        signature: None,
    }
}

fn plain_commit(parent: Option<&str>, entries: Vec<String>) -> Commit {
    Commit { parent: parent.map(s), timestamp: s("T9"), metadata: None, entries }
}

fn fresh() -> LedgerContainer {
    create_ledger(&None, Some(s("T0"))).unwrap()
}

fn with_one_commit() -> (LedgerContainer, String, String) {
    let l0 = fresh();
    let (e1, l1) = append_entry(&l0, &entry("note", "T1", "alice")).unwrap();
    let (c1, commit) = create_commit(&l1, vec![e1.clone()], None, Some(s("T2")), None).unwrap();
    let l2 = append_commit(&l1, &c1, &commit).unwrap();
    (l2, e1, c1)
}

#[test]
fn genesis_ledger_has_known_id() {
    let l = fresh();
    assert_eq!(l.format, LEDGER_FORMAT);
    assert_eq!(l.version, LEDGER_VERSION);
    assert_eq!(l.head, G);
    assert_eq!(l.commits.len(), 1);
    assert!(l.entries.is_empty());
    let g = &l.commits[0].1;
    assert_eq!(g.parent, None);
    assert!(g.entries.is_empty());
    assert_eq!(
        g.metadata,
        Some(Value::Object(vec![
            (s("genesis"), Value::Bool(true)),
            (s("spec"), Value::String(s(PROTOCOL_SPEC))),
        ]))
    );
    assert!(is_genesis_commit(g));
}

#[test]
fn genesis_ledger_validates() {
    let report = validate_ledger(&fresh(), true);
    assert!(report.ok);
    assert!(report.errors.is_empty());
}

#[test]
fn ids_match_known_digests() {
    let (l2, e1, c1) = with_one_commit();
    assert_eq!(e1, E1);
    assert_eq!(c1, C1);
    assert_eq!(derive_entry_id(&entry("note", "T1", "alice")), E1);
    let c = &l2.commits[1].1;
    assert_eq!(derive_commit_id(c), C1);
    assert_eq!(c.metadata, Some(Value::Null));
}

#[test]
fn entry_id_ignores_signature() {
    let a = entry("note", "T1", "alice");
    let mut b = entry("note", "T1", "alice");
    b.signature = Some(s("sig"));
    assert_eq!(derive_entry_id(&a), derive_entry_id(&b));
    let mut c = entry("note", "T1", "alice");
    c.payload = None;
    assert_ne!(derive_entry_id(&a), derive_entry_id(&c));
}

#[test]
fn append_advances_head_and_chain() {
    let (l2, _, c1) = with_one_commit();
    assert_eq!(l2.head, c1);
    let chain = get_commit_chain(&l2).unwrap();
    assert_eq!(chain.last(), Some(&c1));
    assert_eq!(chain, vec![s(G), c1.clone()]);
    assert!(validate_ledger(&l2, true).ok);
}

#[test]
fn append_leaves_input_unchanged() {
    let l0 = fresh();
    let before = l0.clone();
    let (_, l1) = append_entry(&l0, &entry("note", "T1", "alice")).unwrap();
    assert_eq!(l0, before);
    assert_eq!(l1.entries.len(), 1);
}

#[test]
fn duplicate_entry_rejected() {
    let l0 = fresh();
    let (_, l1) = append_entry(&l0, &entry("note", "T1", "alice")).unwrap();
    let mut again = entry("note", "T1", "alice");
    again.signature = Some(s("other"));
    let err = append_entry(&l1, &again).unwrap_err();
    assert_eq!(err.code, ErrorCode::DuplicateEntry);
    assert_eq!(err.message, format!("Entry {} already exists", E1));
    assert_eq!(err.code.as_str(), "DUPLICATE_ENTRY");
}

#[test]
fn invalid_entry_rejected() {
    let err = append_entry(&fresh(), &entry("", "T1", "")).unwrap_err();
    assert_eq!(err.code, ErrorCode::InvalidEntry);
    assert_eq!(
        err.message,
        "Entry.kind must be a non-empty string; Entry.author must be a non-empty string"
    );
}

#[test]
fn validate_entry_lists_every_problem() {
    let r = validate_entry(&entry("", "", ""));
    assert!(!r.ok);
    assert_eq!(
        r.errors,
        vec![
            s("Entry.kind must be a non-empty string"),
            s("Entry.timestamp must be a non-empty string"),
            s("Entry.author must be a non-empty string"),
        ]
    );
    let ok = validate_entry(&entry("k", "t", "a"));
    assert!(ok.ok);
    assert!(ok.errors.is_empty());
}

#[test]
fn validate_commit_lists_every_problem() {
    let c = Commit { parent: Some(s("")), timestamp: s(""), metadata: Some(Value::Bool(true)), entries: vec![] };
    let r = validate_commit(&c);
    assert!(!r.ok);
    assert_eq!(
        r.errors,
        vec![
            s("Commit.timestamp must be a non-empty string"),
            s("Commit.parent must be a non-empty string or null"),
            s("Commit.metadata must be an object or null"),
        ]
    );
    assert!(validate_commit(&plain_commit(Some("p"), vec![])).ok);
}

#[test]
fn create_commit_errors() {
    let l = fresh();
    let err = create_commit_at(&l, vec![s("nope")], None, s("T"), None).unwrap_err();
    assert_eq!(err.code, ErrorCode::MissingEntry);
    assert_eq!(err.message, "Missing entry nope");
    let err = create_commit_at(&l, vec![], None, s("T"), Some(s(""))).unwrap_err();
    assert_eq!(err.code, ErrorCode::InvalidParent);
    assert_eq!(err.message, "Non-genesis commits must reference a parent");
    let err = create_commit_at(&l, vec![], None, s("T"), Some(s("ghost"))).unwrap_err();
    assert_eq!(err.code, ErrorCode::MissingCommit);
    assert_eq!(err.message, "Missing commit ghost");
}

#[test]
fn create_commit_defaults() {
    let l = fresh();
    let meta = Value::Object(vec![(s("note"), Value::String(s("x")))]);
    let (id, c) = create_commit_at(&l, vec![], Some(meta.clone()), s("T5"), None).unwrap();
    assert_eq!(c.parent, Some(s(G)));
    assert_eq!(c.metadata, Some(meta));
    assert_eq!(c.timestamp, "T5");
    assert_eq!(id, derive_commit_id(&c));
}

#[test]
fn create_commit_stamps_current_time() {
    let (_, c) = create_commit(&fresh(), vec![], None, None, None).unwrap();
    assert!(!c.timestamp.is_empty());
    assert!(c.timestamp.ends_with('Z'));
    let (_, g) = create_genesis_commit(&None, None).unwrap();
    assert!(g.timestamp.contains('T'));
}

#[test]
fn append_commit_errors() {
    let l = fresh();
    let genesis_like = Commit {
        parent: Some(s(G)),
        timestamp: s("T"),
        metadata: Some(Value::Object(vec![(s("genesis"), Value::Bool(true))])),
        entries: vec![],
    };
    let err = append_commit(&l, "x", &genesis_like).unwrap_err();
    assert_eq!(err.code, ErrorCode::InvalidCommit);
    assert_eq!(err.message, "Genesis commits must be created via create_ledger");

    let err = append_commit(&l, "x", &plain_commit(None, vec![])).unwrap_err();
    assert_eq!(err.code, ErrorCode::InvalidParent);
    assert_eq!(err.message, "Commit parent must be a non-empty CommitID");
    let err = append_commit(&l, "x", &plain_commit(Some(""), vec![])).unwrap_err();
    assert_eq!(err.code, ErrorCode::InvalidParent);

    let err = append_commit(&l, "x", &plain_commit(Some("ghost"), vec![])).unwrap_err();
    assert_eq!(err.code, ErrorCode::MissingCommit);
    assert_eq!(err.message, "Missing commit ghost");

    let mut bad = plain_commit(Some(G), vec![]);
    bad.metadata = Some(Value::Array(vec![]));
    bad.timestamp = s("");
    let err = append_commit(&l, "x", &bad).unwrap_err();
    assert_eq!(err.code, ErrorCode::InvalidCommit);
    assert_eq!(
        err.message,
        "Commit.timestamp must be a non-empty string; Commit.metadata must be an object or null"
    );

    let err = append_commit(&l, "x", &plain_commit(Some(G), vec![s("nope")])).unwrap_err();
    assert_eq!(err.code, ErrorCode::MissingEntry);
    assert_eq!(err.message, "Missing entry nope");

    let err = append_commit(&l, G, &plain_commit(Some(G), vec![])).unwrap_err();
    assert_eq!(err.code, ErrorCode::DuplicateCommit);
    assert_eq!(err.message, format!("Commit {} already exists", G));
}

#[test]
fn strict_append_checks_id() {
    let l = fresh();
    let c = plain_commit(Some(G), vec![]);
    let err = append_commit_strict(&l, "forged", &c).unwrap_err();
    assert_eq!(err.code, ErrorCode::CommitIdMismatch);
    assert_eq!(err.message, "CommitID does not match commit content");
    let id = derive_commit_id(&c);
    let l2 = append_commit_strict(&l, &id, &c).unwrap();
    assert_eq!(l2.head, id);
}

#[test]
fn plain_append_accepts_any_new_id() {
    let l = fresh();
    let l2 = append_commit(&l, "custom", &plain_commit(Some(G), vec![])).unwrap();
    assert_eq!(l2.head, "custom");
}

fn cyclic() -> LedgerContainer {
    let mut l = fresh();
    l.commits.push((s("A"), plain_commit(Some("B"), vec![])));
    l.commits.push((s("B"), plain_commit(Some("A"), vec![])));
    l.head = s("A");
    l
}

#[test]
fn cycle_detected() {
    let err = get_commit_chain(&cyclic()).unwrap_err();
    assert_eq!(err.code, ErrorCode::CommitChainCycle);
    assert_eq!(err.message, "Commit chain cycle detected at A");
    assert_eq!(get_replay_entry_ids(&cyclic()).unwrap_err().code, ErrorCode::CommitChainCycle);
}

#[test]
fn chain_errors() {
    let mut l = fresh();
    l.head = s("nowhere");
    let err = get_commit_chain(&l).unwrap_err();
    assert_eq!(err.code, ErrorCode::MissingHead);
    assert_eq!(err.message, "Missing head commit nowhere");

    let mut l = fresh();
    l.commits.push((s("A"), plain_commit(Some("gone"), vec![])));
    l.head = s("A");
    let err = get_commit_chain(&l).unwrap_err();
    assert_eq!(err.code, ErrorCode::MissingCommit);
    assert_eq!(err.message, "Missing commit gone");

    let mut l = fresh();
    l.commits.push((s("A"), plain_commit(Some(""), vec![])));
    l.head = s("A");
    let err = get_commit_chain(&l).unwrap_err();
    assert_eq!(err.code, ErrorCode::InvalidParent);
    assert_eq!(err.message, "Commit parent must be null or a CommitID");
}

#[test]
fn replay_skips_genesis_and_keeps_order() {
    let l0 = fresh();
    let (a, l1) = append_entry(&l0, &entry("k", "1", "x")).unwrap();
    let (b, l2) = append_entry(&l1, &entry("k", "2", "x")).unwrap();
    let (c, l3) = append_entry(&l2, &entry("k", "3", "x")).unwrap();
    let (id1, c1) = create_commit_at(&l3, vec![b.clone(), a.clone()], None, s("T1"), None).unwrap();
    let l4 = append_commit(&l3, &id1, &c1).unwrap();
    let (id2, c2) = create_commit_at(&l4, vec![c.clone()], None, s("T2"), None).unwrap();
    let l5 = append_commit(&l4, &id2, &c2).unwrap();
    assert_eq!(get_replay_entry_ids(&l5).unwrap(), vec![b.clone(), a.clone(), c.clone()]);
    let entries = get_replay_entries(&l5).unwrap();
    let stamps: Vec<String> = entries.iter().map(|e| e.timestamp.clone()).collect();
    assert_eq!(stamps, vec![s("2"), s("1"), s("3")]);
}

#[test]
fn replay_reports_missing_entry() {
    let mut l = fresh();
    l.commits.push((s("A"), plain_commit(Some(G), vec![s("lost")])));
    l.head = s("A");
    assert_eq!(get_replay_entry_ids(&l).unwrap(), vec![s("lost")]);
    let err = get_replay_entries(&l).unwrap_err();
    assert_eq!(err.code, ErrorCode::MissingEntry);
    assert_eq!(err.message, "Missing entry lost");
}

#[test]
fn replay_ignores_stored_order() {
    let (l2, e1, _) = with_one_commit();
    let mut shuffled = l2.clone();
    shuffled.commits.reverse();
    assert_eq!(get_replay_entry_ids(&shuffled).unwrap(), get_replay_entry_ids(&l2).unwrap());
    assert_eq!(get_replay_entry_ids(&l2).unwrap(), vec![e1]);
}

#[test]
fn validate_ledger_does_not_stop_at_header() {
    let mut l = fresh();
    l.format = s("bad");
    l.entries.push((s("E"), entry("", "t", "a")));
    let r = validate_ledger(&l, true);
    assert!(!r.ok);
    assert_eq!(
        r.errors,
        vec![s("Ledger.format must be \"concord-ledger\""), s("Entry E: Entry.kind must be a non-empty string")]
    );
    let mut l = fresh();
    l.version = s("2.0");
    l.head = s("");
    assert_eq!(
        validate_ledger(&l, true).errors,
        vec![
            s("Ledger.version must be \"1.0\""),
            s("Ledger.head must be a string"),
            s("Ledger head  does not exist in commits"),
            s("Missing head commit "),
        ]
    );
}

#[test]
fn replay_skips_only_the_root() {
    let (l2, e1, c1) = with_one_commit();
    let mut l = l2.clone();
    let marked = Commit {
        parent: Some(c1.clone()),
        timestamp: s("T3"),
        metadata: Some(Value::Object(vec![(s("genesis"), Value::Bool(true))])),
        entries: vec![e1.clone()],
    };
    l.commits.push((s("X"), marked));
    l.head = s("X");
    assert_eq!(get_replay_entry_ids(&l).unwrap(), vec![e1.clone(), e1.clone()]);
    let mut rooted = fresh();
    rooted.commits[0].1.entries.push(e1.clone());
    assert_eq!(get_replay_entry_ids(&rooted).unwrap(), Vec::<String>::new());
}

#[test]
fn validate_ledger_collects_everything() {
    let mut l = cyclic();
    l.commits.push((s("C"), plain_commit(Some(G), vec![s("e9")])));
    l.entries.push((s("E"), entry("", "t", "a")));
    let r = validate_ledger(&l, true);
    assert!(!r.ok);
    assert_eq!(
        r.errors,
        vec![
            s("Commit chain cycle detected at A"),
            s("Commit C references missing entry e9"),
            s("Entry E: Entry.kind must be a non-empty string"),
        ]
    );
    let mut l = fresh();
    l.head = s("nowhere");
    let r = validate_ledger(&l, true);
    assert_eq!(
        r.errors,
        vec![s("Ledger head nowhere does not exist in commits"), s("Missing head commit nowhere")]
    );
}

#[test]
fn validate_ledger_spec_tag_modes() {
    let meta = Some(Value::Object(vec![(s("spec"), Value::String(s("concord-protocol@2.0")))]));
    let l = create_ledger_at(&meta, s("T0")).unwrap();
    let strict = validate_ledger(&l, true);
    assert_eq!(strict.errors, vec![s("Genesis commit metadata.spec must be \"concord-protocol@1.0\"")]);
    let loose = validate_ledger(&l, false);
    assert!(loose.ok);
}

#[test]
fn validate_ledger_genesis_problems() {
    let meta = Some(Value::Object(vec![
        (s("genesis"), Value::Bool(false)),
        (s("spec"), Value::Number(s("1"))),
    ]));
    let mut l = create_ledger_at(&meta, s("T0")).unwrap();
    assert!(!is_genesis_commit(&l.commits[0].1));
    l.commits[0].1.entries.push(s("x"));
    let r = validate_ledger(&l, true);
    assert_eq!(
        r.errors,
        vec![
            s("Genesis commit entries must be an empty array"),
            s("Genesis commit metadata.genesis must be true"),
            s("Genesis commit metadata.spec must be a string"),
            format!("Commit {} references missing entry x", l.head),
        ]
    );
}

#[test]
fn genesis_metadata_merges_caller_keys() {
    let meta = Some(Value::Object(vec![
        (s("genesis"), Value::Bool(false)),
        (s("name"), Value::String(s("demo"))),
    ]));
    assert_eq!(
        build_genesis_metadata(&meta).unwrap(),
        Value::Object(vec![
            (s("genesis"), Value::Bool(false)),
            (s("spec"), Value::String(s(PROTOCOL_SPEC))),
            (s("name"), Value::String(s("demo"))),
        ])
    );
    assert_eq!(
        build_genesis_metadata(&Some(Value::Null)).unwrap(),
        build_genesis_metadata(&None).unwrap()
    );
    let err = build_genesis_metadata(&Some(Value::Array(vec![]))).unwrap_err();
    assert_eq!(err.code, ErrorCode::InvalidCommit);
    assert_eq!(err.message, "metadata must be an object or null");
    assert!(create_ledger(&Some(Value::Bool(true)), Some(s("T0"))).is_err());
}

#[test]
fn genesis_commit_matches_ledger() {
    let (id, c) = create_genesis_commit_at(&None, s("T0")).unwrap();
    assert_eq!(id, G);
    assert_eq!(fresh().commits[0].1, c);
    assert!(is_genesis_commit(&c));
}

#[test]
fn unreachable_commits_are_checked() {
    let (mut l, _, _) = with_one_commit();
    l.commits.push((s("side"), plain_commit(Some(G), vec![s("gone")])));
    let r = validate_ledger(&l, true);
    assert_eq!(r.errors, vec![s("Commit side references missing entry gone")]);
}

#[test]
fn error_codes_have_names() {
    assert_eq!(ErrorCode::MissingHead.as_str(), "MISSING_HEAD");
    assert_eq!(ErrorCode::InvalidEntryPayload.as_str(), "INVALID_ENTRY_PAYLOAD");
    assert_eq!(ErrorCode::CommitChainCycle.as_str(), "COMMIT_CHAIN_CYCLE");
}

#[test]
fn signing_payload_excludes_signature() {
    let mut e = entry("note", "T1", "alice");
    e.signature = Some(s("sig"));
    let payload = concord_protocol::record::get_entry_signing_payload(&e);
    assert_eq!(payload, r#"{"author":"alice","kind":"note","payload":{"msg":"hi"},"timestamp":"T1"}"#);
    assert_eq!(concord_protocol::record::get_entry_signing_bytes(&e), payload.as_bytes().to_vec());
    let mut bare = entry("note", "T1", "alice");
    bare.payload = None;
    assert_eq!(
        concord_protocol::record::get_entry_signing_payload(&bare),
        r#"{"author":"alice","kind":"note","payload":null,"timestamp":"T1"}"#
    );
}

#[test]
fn malformed_number_payload_rejected() {
    let mut e = entry("note", "T1", "alice");
    e.payload = Some(Value::Array(vec![Value::Number(s("1 "))]));
    let err = append_entry(&fresh(), &e).unwrap_err();
    assert_eq!(err.code, ErrorCode::InvalidEntry);
    assert_eq!(err.message, "Entry.payload must be canonicalizable: a number is not in JSON syntax");
    assert!(!validate_entry(&e).ok);
}

#[test]
fn appends_keep_ids_unique() {
    let (l2, _, _) = with_one_commit();
    let mut ids: Vec<&String> = l2.commits.iter().map(|p| &p.0).collect();
    ids.sort();
    ids.dedup();
    assert_eq!(ids.len(), l2.commits.len());
}
