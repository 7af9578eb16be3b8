use modality_datastore::block_message::BlockMessage;
use modality_datastore::key::{render, KeyError};
use modality_datastore::query::find_all_by_prefix;
use serde_json::Value;
use std::collections::BTreeMap;

fn message(block_id: i64, msg_type: &str, peer_id: &str) -> BlockMessage {
    let mut m = BlockMessage::blank();
    m.block_id = block_id;
    m.msg_type = msg_type.to_string();
    m.peer_id = peer_id.to_string();
    m
}

fn payload(block_id: i64, msg_type: &str, peer_id: &str) -> Vec<u8> {
    format!(
        "{{\"block_id\":{},\"type\":\"{}\",\"peer_id\":\"{}\",\"content\":{{\"text\":\"hi\"}}}}",
        block_id, msg_type, peer_id
    )
    .into_bytes()
}

/// The store's side of a prefix query: scan, read each key back into
/// components, render the full key and look it up.
fn query(store: &BTreeMap<Vec<u8>, Vec<u8>>, block_id: i64, msg_type: &str) -> Result<Vec<BlockMessage>, KeyError> {
    let prefix = BlockMessage::block_prefix(block_id, msg_type);
    let keys: Vec<Vec<u8>> = store
        .keys()
        .filter(|k| k.starts_with(prefix.as_bytes()))
        .cloned()
        .collect();
    let template = BlockMessage::key_template();
    let partial = BlockMessage::block_type_components(block_id, msg_type);
    let plans = find_all_by_prefix(&template, &partial, &keys)?;
    let mut scanned = Vec::new();
    for (key, comps) in keys.iter().zip(plans.iter()) {
        let full = render(&template, comps)?;
        scanned.push((key.clone(), store.get(full.as_bytes()).cloned()));
    }
    BlockMessage::find_all_in_block_of_type(block_id, msg_type, &scanned)
}

#[test]
fn key_follows_template() {
    assert_eq!(message(5, "vote", "A").key(), "/block_message/5/type/vote/peer/A");
    assert_eq!(message(-12, "vote", "A").key(), "/block_message/-12/type/vote/peer/A");
}

#[test]
fn block_prefix_ends_before_peer() {
    assert_eq!(BlockMessage::block_prefix(5, "vote"), "/block_message/5/type/vote/peer/");
}

#[test]
fn id_components_render_decimal() {
    let c = message(-305, "vote", "P").id_components();
    assert_eq!(
        c,
        vec![
            ("block_id".to_string(), "-305".to_string()),
            ("type".to_string(), "vote".to_string()),
            ("peer_id".to_string(), "P".to_string()),
        ]
    );
}

#[test]
fn key_template_has_six_segments() {
    assert_eq!(BlockMessage::key_template().segments.len(), 6);
    assert_eq!(BlockMessage::fields(), vec!["block_id", "peer_id", "type", "seen_at_block_id", "content"]);
    assert!(BlockMessage::field_defaults().is_empty());
}

#[test]
fn set_field_coerces_values() {
    let mut m = BlockMessage::blank();
    m.set_field("block_id", Value::from(42));
    m.set_field("peer_id", Value::from("peer"));
    m.set_field("type", Value::from(7));
    m.set_field("seen_at_block_id", Value::from(9));
    m.set_field("content", Value::from("body"));
    m.set_field("unknown", Value::from(1));
    assert_eq!(m.block_id, 42);
    assert_eq!(m.peer_id, "peer");
    assert_eq!(m.msg_type, "");
    assert_eq!(m.seen_at_block_id, Some(9));
    assert_eq!(m.content, Value::from("body"));
}

#[test]
fn set_field_non_integer_block_id_is_zero() {
    let mut m = message(3, "vote", "A");
    m.set_field("block_id", Value::from("x"));
    assert_eq!(m.block_id, 0);
    m.set_field("seen_at_block_id", Value::Null);
    assert_eq!(m.seen_at_block_id, None);
}

#[test]
fn missing_optional_field_takes_default() {
    let bytes = b"{\"block_id\":5,\"type\":\"vote\",\"peer_id\":\"A\",\"content\":null}".to_vec();
    match BlockMessage::from_payload(&Some(bytes)) {
        Ok(Some(m)) => {
            assert_eq!(m.seen_at_block_id, None);
            assert_eq!(m.block_id, 5);
            assert_eq!(m.peer_id, "A");
        }
        _ => panic!("expected a message"),
    }
}

#[test]
fn from_payload_absent_is_none() {
    assert!(matches!(BlockMessage::from_payload(&None), Ok(None)));
}

#[test]
fn from_payload_rejects_non_object() {
    let r = BlockMessage::from_payload(&Some(b"[1,2]".to_vec()));
    assert!(matches!(r, Err(KeyError::LookupFailure)));
    let r = BlockMessage::from_payload(&Some(b"not json".to_vec()));
    assert!(matches!(r, Err(KeyError::LookupFailure)));
}

#[test]
fn round_trip_keeps_id_components() {
    let e = message(5, "vote", "A");
    let mut store = BTreeMap::new();
    store.insert(e.key().into_bytes(), payload(5, "vote", "A"));
    let found = match query(&store, 5, "vote") {
        Ok(f) => f,
        Err(_) => panic!("expected messages"),
    };
    assert_eq!(found.len(), 1);
    assert_eq!(found[0].id_components(), e.id_components());
}

#[test]
fn scan_of_block_and_type_returns_matching_peers() {
    let mut store = BTreeMap::new();
    store.insert(b"/block_message/5/type/vote/peer/A".to_vec(), payload(5, "vote", "A"));
    store.insert(b"/block_message/5/type/vote/peer/B".to_vec(), payload(5, "vote", "B"));
    store.insert(b"/block_message/6/type/vote/peer/A".to_vec(), payload(6, "vote", "A"));
    let found = match query(&store, 5, "vote") {
        Ok(f) => f,
        Err(_) => panic!("expected messages"),
    };
    assert_eq!(found.len(), 2);
    assert_eq!(found[0].peer_id, "A");
    assert_eq!(found[1].peer_id, "B");
    assert!(found.iter().all(|m| m.block_id == 5));
}

#[test]
fn scan_ignores_other_types_of_same_block() {
    let mut store = BTreeMap::new();
    store.insert(b"/block_message/5/type/vote/peer/A".to_vec(), payload(5, "vote", "A"));
    store.insert(b"/block_message/5/type/cert/peer/B".to_vec(), payload(5, "cert", "B"));
    store.insert(b"/block_message/5/type/votes/peer/C".to_vec(), payload(5, "votes", "C"));
    let found = match query(&store, 5, "vote") {
        Ok(f) => f,
        Err(_) => panic!("expected messages"),
    };
    assert_eq!(found.len(), 1);
    assert_eq!(found[0].peer_id, "A");
}

#[test]
fn scan_for_five_never_returns_fifty_five() {
    let mut store = BTreeMap::new();
    store.insert(b"/block_message/5/type/vote/peer/A".to_vec(), payload(5, "vote", "A"));
    store.insert(b"/block_message/55/type/vote/peer/B".to_vec(), payload(55, "vote", "B"));
    let found = match query(&store, 5, "vote") {
        Ok(f) => f,
        Err(_) => panic!("expected messages"),
    };
    assert_eq!(found.len(), 1);
    assert_eq!(found[0].block_id, 5);
}

#[test]
fn scan_twice_gives_same_messages() {
    let mut store = BTreeMap::new();
    store.insert(b"/block_message/5/type/vote/peer/A".to_vec(), payload(5, "vote", "A"));
    store.insert(b"/block_message/5/type/vote/peer/B".to_vec(), payload(5, "vote", "B"));
    let a = query(&store, 5, "vote").ok().unwrap();
    let b = query(&store, 5, "vote").ok().unwrap();
    let ids = |v: &Vec<BlockMessage>| v.iter().map(|m| m.id_components()).collect::<Vec<_>>();
    assert_eq!(ids(&a), ids(&b));
    assert_eq!(a[0].content, b[0].content);
}

#[test]
fn find_all_skips_keys_without_value() {
    let scanned = vec![
        (b"/block_message/5/type/vote/peer/A".to_vec(), Some(payload(5, "vote", "A"))),
        (b"/block_message/5/type/vote/peer/B".to_vec(), None),
    ];
    let found = BlockMessage::find_all_in_block_of_type(5, "vote", &scanned).ok().unwrap();
    assert_eq!(found.len(), 1);
    assert_eq!(found[0].peer_id, "A");
}

#[test]
fn find_all_fails_on_undecodable_payload() {
    let scanned = vec![(b"/block_message/5/type/vote/peer/A".to_vec(), Some(b"{".to_vec()))];
    let r = BlockMessage::find_all_in_block_of_type(5, "vote", &scanned);
    assert!(matches!(r, Err(KeyError::LookupFailure)));
}

#[test]
fn find_all_fails_on_key_outside_prefix() {
    let scanned = vec![
        (b"/block_message/5/type/vote/peer/".to_vec(), Some(payload(5, "vote", "A"))),
    ];
    let r = BlockMessage::find_all_in_block_of_type(5, "vote", &scanned);
    assert!(matches!(r, Err(KeyError::MalformedKey { .. })));
}
