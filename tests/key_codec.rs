use modality_datastore::key::{
    extract_suffix, find_component, render, render_prefix, same_text, KeyError, KeyTemplate,
    Segment,
};
use modality_datastore::query::find_all_by_prefix;

fn s(t: &str) -> String {
    t.to_string()
}

fn template() -> KeyTemplate {
    KeyTemplate {
        segments: vec![
            Segment::Literal(s("block_message")),
            Segment::Field(s("block_id")),
            Segment::Literal(s("type")),
            Segment::Field(s("type")),
            Segment::Literal(s("peer")),
            Segment::Field(s("peer_id")),
        ],
    }
}

fn comps(pairs: &[(&str, &str)]) -> Vec<(String, String)> {
    pairs.iter().map(|(a, b)| (s(a), s(b))).collect()
}

#[test]
fn render_fills_placeholders_in_template_order() {
    let c = comps(&[("peer_id", "A"), ("type", "vote"), ("block_id", "5")]);
    let k = render(&template(), &c);
    assert!(matches!(k, Ok(ref k) if k == "/block_message/5/type/vote/peer/A"));
}

#[test]
fn render_reports_first_missing_component() {
    let c = comps(&[("peer_id", "A")]);
    match render(&template(), &c) {
        Err(KeyError::MissingComponent(name)) => assert_eq!(name, "block_id"),
        _ => panic!("expected a missing component"),
    }
}

#[test]
fn render_uses_last_binding_of_a_name() {
    let c = comps(&[("block_id", "4"), ("type", "vote"), ("peer_id", "A"), ("block_id", "5")]);
    let k = render(&template(), &c);
    assert!(matches!(k, Ok(ref k) if k == "/block_message/5/type/vote/peer/A"));
}

#[test]
fn render_prefix_ends_with_separator() {
    let c = comps(&[("block_id", "5"), ("type", "vote")]);
    let p = render_prefix(&template(), &c);
    assert!(matches!(p, Ok(ref p) if p == "/block_message/5/type/vote/peer/"));
}

#[test]
fn render_prefix_needs_leading_components() {
    let c = comps(&[("block_id", "5")]);
    match render_prefix(&template(), &c) {
        Err(KeyError::MissingComponent(name)) => assert_eq!(name, "type"),
        _ => panic!("expected a missing component"),
    }
}

#[test]
fn extract_suffix_returns_remainder() {
    let r = extract_suffix(&s("/block_message/5/type/vote/peer/"), b"/block_message/5/type/vote/peer/peerA");
    assert!(matches!(r, Ok(ref v) if v == "peerA"));
}

#[test]
fn extract_suffix_rejects_sibling_id() {
    let r = extract_suffix(&s("/block_message/5/type/vote/peer/"), b"/block_message/55/type/vote/peer/A");
    match r {
        Err(KeyError::MalformedKey { observed, expected_prefix }) => {
            assert_eq!(observed, b"/block_message/55/type/vote/peer/A".to_vec());
            assert_eq!(expected_prefix, "/block_message/5/type/vote/peer/");
        }
        _ => panic!("expected a malformed key"),
    }
}

#[test]
fn extract_suffix_rejects_empty_remainder() {
    let r = extract_suffix(&s("/a/"), b"/a/");
    assert!(matches!(r, Err(KeyError::MalformedKey { .. })));
}

#[test]
fn extract_suffix_rejects_invalid_utf8() {
    let r = extract_suffix(&s("/a/"), &[b'/', b'a', b'/', 0xff]);
    assert!(matches!(r, Err(KeyError::MalformedKey { .. })));
}

#[test]
fn extract_suffix_reads_multibyte_text() {
    let r = extract_suffix(&s("/p/"), "/p/été".as_bytes());
    assert!(matches!(r, Ok(ref v) if v == "été"));
}

#[test]
fn same_text_compares_characters() {
    assert!(same_text("vote", "vote"));
    assert!(!same_text("vote", "vot"));
    assert!(!same_text("vote", "voté"));
}

#[test]
fn find_component_takes_last_binding() {
    let c = comps(&[("a", "1"), ("b", "2"), ("a", "3")]);
    assert_eq!(find_component(&c, &s("a")).map(|v| v.as_str()), Some("3"));
    assert_eq!(find_component(&c, &s("c")), None);
}

#[test]
fn find_all_by_prefix_completes_components() {
    let partial = comps(&[("block_id", "5"), ("type", "vote")]);
    let keys = vec![
        b"/block_message/5/type/vote/peer/A".to_vec(),
        b"/block_message/5/type/vote/peer/B".to_vec(),
    ];
    let found = match find_all_by_prefix(&template(), &partial, &keys) {
        Ok(f) => f,
        Err(_) => panic!("expected components"),
    };
    assert_eq!(found.len(), 2);
    assert_eq!(found[0], comps(&[("block_id", "5"), ("type", "vote"), ("peer_id", "A")]));
    assert_eq!(found[1], comps(&[("block_id", "5"), ("type", "vote"), ("peer_id", "B")]));
}

#[test]
fn find_all_by_prefix_aborts_on_first_malformed_key() {
    let partial = comps(&[("block_id", "5"), ("type", "vote")]);
    let keys = vec![
        b"/block_message/5/type/vote/peer/A".to_vec(),
        b"/block_message/55/type/vote/peer/B".to_vec(),
        b"/block_message/6/type/vote/peer/C".to_vec(),
    ];
    match find_all_by_prefix(&template(), &partial, &keys) {
        Err(KeyError::MalformedKey { observed, .. }) => {
            assert_eq!(observed, b"/block_message/55/type/vote/peer/B".to_vec())
        }
        _ => panic!("expected a malformed key"),
    }
}

#[test]
fn find_all_by_prefix_twice_gives_same_components() {
    let partial = comps(&[("block_id", "5"), ("type", "vote")]);
    let keys = vec![
        b"/block_message/5/type/vote/peer/A".to_vec(),
        b"/block_message/5/type/vote/peer/B".to_vec(),
    ];
    let first = find_all_by_prefix(&template(), &partial, &keys);
    let second = find_all_by_prefix(&template(), &partial, &keys);
    match (first, second) {
        (Ok(a), Ok(b)) => assert_eq!(a, b),
        _ => panic!("expected components"),
    }
}

#[test]
fn find_all_by_prefix_reports_missing_component() {
    let partial = comps(&[("type", "vote")]);
    let keys: Vec<Vec<u8>> = Vec::new();
    match find_all_by_prefix(&template(), &partial, &keys) {
        Err(KeyError::MissingComponent(name)) => assert_eq!(name, "block_id"),
        _ => panic!("expected a missing component"),
    }
}
