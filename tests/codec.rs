use chronicle::codec::{op_from_json, op_to_json};
use chronicle::ids::{AgentId, EntityId, NamespaceId};
use chronicle::json::{chars_of, push_json_str, push_object, read_object, read_str, Field, JsonValue};
use chronicle::model::ProvModel;
use chronicle::ops::{ChronicleTransaction, CreateAgent, CreateNamespace, EntityAttach, RegisterKey};
use chronicle::protocol::{
    check_protocol_version, chronicle_operations_from_submission,
    create_operation_submission_request, serialize_submission, EnvelopeError, Submission,
};
use chronicle::time::Timestamp;
use k256::ecdsa::signature::Signer;
use k256::pkcs8::EncodePublicKey;

fn ns() -> NamespaceId {
    NamespaceId::from_uuid("testns", 0xa1a2a3a4_b1b2_c1c2_d1d2_d3d4d5d6d7d8)
}

#[test]
fn strings_are_escaped_and_read_back() {
    let raw = "a\"b\\c\nd\te\u{1}f";
    let mut out = String::new();
    push_json_str(&mut out, raw);
    assert_eq!(out, "\"a\\\"b\\\\c\\nd\\te\\u0001f\"");
    let cs = chars_of(&out);
    let (back, end) = read_str(&cs, 0).unwrap();
    assert_eq!(back, raw);
    assert_eq!(end, cs.len());
    assert!(read_str(&chars_of("\"\\u0041\""), 0).is_none());
    assert!(read_str(&chars_of("\"open"), 0).is_none());
}

#[test]
fn objects_round_trip() {
    let fs = vec![
        Field { key: "k".to_string(), value: JsonValue::Str("v".to_string()) },
        Field { key: "l".to_string(), value: JsonValue::List(vec!["x".to_string(), "y".to_string()]) },
        Field { key: "e".to_string(), value: JsonValue::List(vec![]) },
    ];
    let mut out = String::new();
    push_object(&mut out, &fs);
    assert_eq!(out, "{\"k\":\"v\",\"l\":[\"x\",\"y\"],\"e\":[]}");
    let (back, end) = read_object(&chars_of(&out), 0).unwrap();
    assert_eq!(back, fs);
    assert_eq!(end, out.chars().count());
    assert!(read_object(&chars_of("{\"k\" : \"v\"}"), 0).is_none());
}

#[test]
fn timestamps_round_trip() {
    let t = Timestamp::new(2014, 7, 8, 9, 10, 11).unwrap();
    assert_eq!(Timestamp::parse(&chars_of(&t.to_text())), Some(t));
    assert_eq!(Timestamp::parse(&chars_of("2014-02-30T00:00:00Z")), None);
    assert_eq!(Timestamp::parse(&chars_of("2016-02-29T23:59:59Z")), Timestamp::new(2016, 2, 29, 23, 59, 59));
    assert!(Timestamp::new(2015, 2, 29, 0, 0, 0).is_none());
    assert!(t.is_before(&Timestamp::new(2014, 7, 8, 9, 10, 12).unwrap()));
    assert!(!t.is_before(&t));
}

#[test]
fn create_namespace_from_json() {
    let op = ChronicleTransaction::CreateNamespace(CreateNamespace {
        id: ns(),
        name: "testns".to_string(),
        uuid: "a1a2a3a4-b1b2-c1c2-d1d2-d3d4d5d6d7d8".to_string(),
    });
    let text = op_to_json(&op);
    assert_eq!(
        text,
        "[{\"@id\":\"_:n1\",\"@type\":\"http://blockchaintp.com/chronicleoperations/ns#CreateNamespace\",\"http://blockchaintp.com/chronicleoperations/ns#NamespaceName\":[{\"@value\":\"testns\"}],\"http://blockchaintp.com/chronicleoperations/ns#NamespaceUuid\":[{\"@value\":\"a1a2a3a4-b1b2-c1c2-d1d2-d3d4d5d6d7d8\"}]}]"
    );
    assert_eq!(op_from_json(&text), Some(op));
}

#[test]
fn create_agent_from_json() {
    let op = ChronicleTransaction::CreateAgent(CreateAgent {
        namespace: ns(),
        name: "test_agent".to_string(),
        id: AgentId::from_name("test_agent"),
    });
    let text = op_to_json(&op);
    assert_eq!(
        text,
        "[{\"@id\":\"_:n1\",\"@type\":\"http://blockchaintp.com/chronicleoperations/ns#CreateAgent\",\"http://blockchaintp.com/chronicleoperations/ns#AgentName\":[{\"@value\":\"test_agent\"}],\"http://blockchaintp.com/chronicleoperations/ns#NamespaceName\":[{\"@value\":\"testns\"}],\"http://blockchaintp.com/chronicleoperations/ns#NamespaceUuid\":[{\"@value\":\"a1a2a3a4-b1b2-c1c2-d1d2-d3d4d5d6d7d8\"}]}]"
    );
    assert_eq!(op_from_json(&text), Some(op));
    assert_eq!(op_from_json("{\"@type\":\"chronicle:CreateAgent\"}"), None);
    assert_eq!(op_from_json("[]"), None);
}

#[test]
fn envelope_framing() {
    let ops = vec![
        ChronicleTransaction::CreateAgent(CreateAgent {
            namespace: ns(),
            name: "a".to_string(),
            id: AgentId::from_name("a"),
        }),
        ChronicleTransaction::RegisterKey(RegisterKey {
            namespace: ns(),
            id: AgentId::from_name("a"),
            publickey: "ab".to_string(),
            name: "a".to_string(),
        }),
    ];
    let sub = create_operation_submission_request(&ops);
    assert_eq!(sub.version, "1");
    assert_eq!(sub.span_id, "");
    assert_eq!(sub.body.len(), 2);
    let bytes = serialize_submission(&sub);
    assert_eq!(&bytes[..3], &[0x0a, 0x01, b'1']);
    assert_eq!(bytes[3], 0x1a);
    let first = sub.body[0].as_bytes();
    assert!(first.len() >= 128);
    assert_eq!(bytes[4], (first.len() % 128) as u8 | 0x80);
    assert_eq!(bytes[5], (first.len() / 128) as u8);
    assert_eq!(&bytes[6..6 + first.len()], first);
    assert_eq!(chronicle_operations_from_submission(&sub.body), Ok(ops));
    assert_eq!(check_protocol_version(&sub), Ok(()));
    let old = Submission { version: "2".to_string(), span_id: String::new(), body: vec![] };
    assert_eq!(
        check_protocol_version(&old),
        Err(EnvelopeError::UnsupportedProtocolVersion { found: "2".to_string() })
    );
    let bad = vec![sub.body[0].clone(), "{}".to_string()];
    assert_eq!(chronicle_operations_from_submission(&bad), Err(EnvelopeError::MalformedOperation { index: 1 }));
}

#[test]
fn signed_attachment_round_trip() {
    let signing = k256::ecdsa::SigningKey::from_slice(&[7u8; 32]).unwrap();
    let der = signing.verifying_key().to_public_key_der().unwrap();
    let public_hex = hex::encode(der.as_bytes());
    let content = b"the attached file".to_vec();
    let sig: k256::ecdsa::Signature = signing.sign(&content);
    let sig_hex = hex::encode(sig.to_bytes());
    let time = Timestamp::new(2014, 7, 8, 9, 10, 11).unwrap();
    let attach = ChronicleTransaction::EntityAttach(EntityAttach {
        namespace: ns(),
        id: EntityId::from_name("file"),
        agent: AgentId::from_name("signer"),
        signature: sig_hex.clone(),
        locator: Some("file:///tmp/x".to_string()),
        signature_time: time,
    });
    let ops = vec![
        ChronicleTransaction::RegisterKey(RegisterKey {
            namespace: ns(),
            id: AgentId::from_name("signer"),
            publickey: public_hex,
            name: "signer".to_string(),
        }),
        attach.clone(),
    ];
    let m = ProvModel::from_tx(&ops).unwrap();
    assert!(m.verify_attachment(&ns(), &EntityId::from_name("file"), &content));
    assert!(!m.verify_attachment(&ns(), &EntityId::from_name("file"), &b"other".to_vec()));
    assert!(!m.verify_attachment(&ns(), &EntityId::from_name("none"), &content));

    let first = m.entity_to_json(&m.entities[0]);
    let text = op_to_json(&attach);
    let decoded = op_from_json(&text).unwrap();
    assert_eq!(decoded, attach);
    let again = ProvModel::from_tx(&vec![ops[0].clone(), decoded]).unwrap();
    assert_eq!(again.entity_to_json(&again.entities[0]), first);
}
