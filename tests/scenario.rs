use concord_protocol::chain::{get_commit_chain, get_replay_entry_ids};
use concord_protocol::ops::{append_commit, append_entry, create_commit, create_ledger};
use concord_protocol::record::Entry;
use concord_protocol::value::Value;

fn note_entry() -> Entry {
    Entry {
        kind: "note".to_string(),
        timestamp: "T1".to_string(),
        author: "alice".to_string(),
        payload: Some(Value::Object(vec![(
            "msg".to_string(),
            Value::String("hi".to_string()),
        )])),
        signature: None,
    }
}

#[test]
fn end_to_end_scenario() {
    let l0 = create_ledger(&None, Some("T0".to_string())).unwrap();
    let g = l0.head.clone();
    assert_eq!(l0.commits.len(), 1);
    assert_eq!(l0.commits[0].0, g);
    let (e1, l1) = append_entry(&l0, &note_entry()).unwrap();
    let (c1_id, c1) = create_commit(&l1, vec![e1.clone()], None, Some("T2".to_string()), None).unwrap();
    assert_eq!(c1.parent, Some(g.clone()));
    let l2 = append_commit(&l1, &c1_id, &c1).unwrap();
    assert_eq!(l2.head, c1_id);
    assert_eq!(get_replay_entry_ids(&l2).unwrap(), vec![e1]);
    assert_eq!(get_commit_chain(&l2).unwrap(), vec![g, c1_id]);
}
