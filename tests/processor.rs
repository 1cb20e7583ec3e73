use chronicle::ids::{ActivityId, AgentId, EntityId, NamespaceId};
use chronicle::ledger::StateInput;
use chronicle::model::{ProcessorError, ProvModel};
use chronicle::ops::{
    ActivityUses, ChronicleTransaction, EndActivity, EntityAttach, GenerateEntity, RegisterKey,
    StartActivity,
};
use chronicle::processor::{execute, ApplyError, ChronicleTransactionHandler};
use chronicle::protocol::{create_operation_submission_request, EnvelopeError, Submission};
use chronicle::time::Timestamp;

fn ns() -> NamespaceId {
    NamespaceId::new("chronicle:ns:testns:a1a2a3a4-b1b2-c1c2-d1d2-d3d4d5d6d7d8")
}

fn t(h: u8) -> Timestamp {
    Timestamp::new(2014, 7, 8, h, 10, 11).unwrap()
}

fn sample() -> Vec<ChronicleTransaction> {
    vec![
        ChronicleTransaction::RegisterKey(RegisterKey {
            namespace: ns(),
            id: AgentId::from_name("g"),
            publickey: "aa".to_string(),
            name: "g".to_string(),
        }),
        ChronicleTransaction::RegisterKey(RegisterKey {
            namespace: ns(),
            id: AgentId::from_name("g"),
            publickey: "bb".to_string(),
            name: "g".to_string(),
        }),
        ChronicleTransaction::StartActivity(StartActivity {
            namespace: ns(),
            id: ActivityId::from_name("a"),
            agent: AgentId::from_name("g"),
            time: t(9),
        }),
        ChronicleTransaction::EndActivity(EndActivity {
            namespace: ns(),
            id: ActivityId::from_name("a"),
            agent: AgentId::from_name("g"),
            time: t(10),
        }),
        ChronicleTransaction::ActivityUses(ActivityUses {
            namespace: ns(),
            id: EntityId::from_name("in"),
            activity: ActivityId::from_name("a"),
        }),
        ChronicleTransaction::GenerateEntity(GenerateEntity {
            namespace: ns(),
            id: EntityId::from_name("out"),
            activity: ActivityId::from_name("a"),
        }),
        ChronicleTransaction::EntityAttach(EntityAttach {
            namespace: ns(),
            id: EntityId::from_name("out"),
            agent: AgentId::from_name("g"),
            signature: "01".to_string(),
            locator: None,
            signature_time: t(11),
        }),
        ChronicleTransaction::EntityAttach(EntityAttach {
            namespace: ns(),
            id: EntityId::from_name("out"),
            agent: AgentId::from_name("g"),
            signature: "02".to_string(),
            locator: Some("file:///x \"quoted\"".to_string()),
            signature_time: t(12),
        }),
    ]
}

fn nodes(m: &ProvModel) -> Vec<String> {
    let mut out = Vec::new();
    for n in &m.namespaces {
        out.push(m.namespace_to_json(n));
    }
    for a in &m.agents {
        out.push(m.agent_to_json(a));
    }
    for a in &m.activities {
        out.push(m.activity_to_json(a));
    }
    for e in &m.entities {
        out.push(m.entity_to_json(e));
    }
    out
}

#[test]
fn stored_nodes_rebuild_the_model() {
    let m = ProvModel::from_tx(&sample()).unwrap();
    let written = nodes(&m);
    let mut back = ProvModel::new();
    for text in &written {
        back.apply_json_ld(text).unwrap();
    }
    assert_eq!(nodes(&back), written);
    assert_eq!(back.agents[0].prior_keys, vec!["aa".to_string()]);
    assert_eq!(back.entities[1].prior_attachments.len(), 1);
}

#[test]
fn malformed_nodes_are_refused() {
    let mut m = ProvModel::new();
    assert_eq!(m.apply_json_ld("{}"), Err(ProcessorError::MalformedDocument));
    assert_eq!(m.apply_json_ld("{\"@type\":\"prov:Agent\"}"), Err(ProcessorError::MalformedDocument));
    assert_eq!(m.apply_json_ld("not json"), Err(ProcessorError::MalformedDocument));
    assert!(m.agents.is_empty());
}

#[test]
fn executing_a_batch_over_stored_state() {
    let ops = sample();
    let first = execute(&vec![], &ops[..3].to_vec()).unwrap();
    // agent g and activity a, each once
    assert_eq!(first.len(), 2);
    let inputs: Vec<StateInput> = first.iter().map(|o| StateInput::new(o.data.clone())).collect();
    let rest = execute(&inputs, &ops[3..].to_vec()).unwrap();
    // a, in and out change; g's node is as it was
    assert_eq!(rest.len(), 3);
    assert!(rest.iter().all(|o| o.address.resource != "chronicle:agent:g"));
    let whole = execute(&vec![], &ops).unwrap();
    let last_whole = whole.last().unwrap();
    let last_rest = rest.last().unwrap();
    assert_eq!(last_whole.address, last_rest.address);
    assert_eq!(last_whole.data, last_rest.data);
    assert_eq!(execute(&vec![StateInput::new(vec![0xff])], &ops), Err(ProcessorError::MalformedDocument));
}

#[test]
fn handler_checks_the_envelope() {
    let h = ChronicleTransactionHandler::new();
    assert_eq!(h.family_name, "chronicle");
    assert_eq!(h.family_versions, vec!["1.0".to_string()]);
    assert_eq!(h.namespaces[0].len(), 6);
    let sub = create_operation_submission_request(&sample());
    let outs = h.apply(&sub, &vec![]).unwrap();
    assert_eq!(outs.len(), 4);
    let old = Submission { version: "0".to_string(), span_id: String::new(), body: sub.body.clone() };
    assert_eq!(
        h.apply(&old, &vec![]),
        Err(ApplyError::Envelope(EnvelopeError::UnsupportedProtocolVersion { found: "0".to_string() }))
    );
    let bad = Submission { version: "1".to_string(), span_id: String::new(), body: vec!["{".to_string()] };
    assert_eq!(
        h.apply(&bad, &vec![]),
        Err(ApplyError::Envelope(EnvelopeError::MalformedOperation { index: 0 }))
    );
}
