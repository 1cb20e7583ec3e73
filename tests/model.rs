use chronicle::ids::{ActivityId, AgentId, EntityId, NamespaceId};
use chronicle::model::{ProcessorError, ProvModel};
use chronicle::ops::{
    ActivityUses, ChronicleTransaction, CreateActivity, CreateAgent, CreateNamespace, EndActivity,
    EntityAttach, GenerateEntity, RegisterKey, StartActivity,
};
use chronicle::time::Timestamp;

const UUID: u128 = 0x5a0ab5b8_eeb7_4812_9fe3_6dd69bd20cea;

fn ns() -> NamespaceId {
    NamespaceId::from_uuid("testns", UUID)
}

fn at(h: u8, m: u8, s: u8) -> Timestamp {
    Timestamp::new(2014, 7, 8, h, m, s).unwrap()
}

fn create_namespace() -> ChronicleTransaction {
    ChronicleTransaction::CreateNamespace(CreateNamespace {
        id: ns(),
        name: "testns".to_string(),
        uuid: "5a0ab5b8-eeb7-4812-9fe3-6dd69bd20cea".to_string(),
    })
}

fn create_agent() -> ChronicleTransaction {
    ChronicleTransaction::CreateAgent(CreateAgent {
        namespace: ns(),
        name: "testagent".to_string(),
        id: AgentId::from_name("testagent"),
    })
}

fn register_key(key: &str) -> ChronicleTransaction {
    ChronicleTransaction::RegisterKey(RegisterKey {
        namespace: ns(),
        id: AgentId::from_name("testagent"),
        publickey: key.to_string(),
        name: "testagent".to_string(),
    })
}

fn start(t: Timestamp) -> ChronicleTransaction {
    ChronicleTransaction::StartActivity(StartActivity {
        namespace: ns(),
        id: ActivityId::from_name("testactivity"),
        agent: AgentId::from_name("testagent"),
        time: t,
    })
}

fn end(t: Timestamp) -> ChronicleTransaction {
    ChronicleTransaction::EndActivity(EndActivity {
        namespace: ns(),
        id: ActivityId::from_name("testactivity"),
        agent: AgentId::from_name("testagent"),
        time: t,
    })
}

fn uses() -> ChronicleTransaction {
    ChronicleTransaction::ActivityUses(ActivityUses {
        namespace: ns(),
        id: EntityId::from_name("testentity"),
        activity: ActivityId::from_name("testactivity"),
    })
}

fn generate() -> ChronicleTransaction {
    ChronicleTransaction::GenerateEntity(GenerateEntity {
        namespace: ns(),
        id: EntityId::from_name("testentity"),
        activity: ActivityId::from_name("testactivity"),
    })
}

fn attach(signature: &str, locator: Option<&str>) -> ChronicleTransaction {
    ChronicleTransaction::EntityAttach(EntityAttach {
        namespace: ns(),
        id: EntityId::from_name("testentity"),
        agent: AgentId::from_name("testagent"),
        signature: signature.to_string(),
        locator: locator.map(|l| l.to_string()),
        signature_time: at(10, 0, 0),
    })
}

fn build(ops: &[ChronicleTransaction]) -> ProvModel {
    let mut m = ProvModel::new();
    for op in ops {
        m.apply(op).unwrap();
    }
    m
}

fn snapshot(m: &ProvModel) -> Vec<String> {
    let mut out = Vec::new();
    for n in &m.namespaces {
        out.push(m.namespace_to_json(n));
    }
    for a in &m.agents {
        out.push(m.agent_to_json(a));
    }
    for a in &m.activities {
        out.push(m.activity_to_json(a));
    }
    for e in &m.entities {
        out.push(m.entity_to_json(e));
    }
    out
}

#[test]
fn namespace_identifier_from_name_and_uuid() {
    assert_eq!(ns().as_str(), "chronicle:ns:testns:5a0ab5b8-eeb7-4812-9fe3-6dd69bd20cea");
    let m = build(&[create_namespace()]);
    assert_eq!(m.namespaces.len(), 1);
    assert_eq!(m.namespaces[0].name, "testns");
}

#[test]
fn identifiers_decompose_into_their_parts() {
    assert_eq!(AgentId::new("chronicle:agent:testagent").decompose(), "testagent");
    assert_eq!(ActivityId::from_name("testactivity").as_str(), "chronicle:activity:testactivity");
    assert_eq!(ActivityId::from_name("testactivity").decompose(), "testactivity");
    assert_eq!(EntityId::from_name("e").decompose(), "e");
    assert_eq!(ns().decompose(), ("testns", "5a0ab5b8-eeb7-4812-9fe3-6dd69bd20cea"));
    assert_eq!(AgentId::new("no-colons").decompose(), "");
    assert_eq!(chronicle::ids::segment_of("a:b:c:d", 3), "d");
}

#[test]
fn agent_with_registered_key() {
    let m = build(&[create_namespace(), create_agent(), register_key("abcd")]);
    assert_eq!(m.agents.len(), 1);
    assert_eq!(m.agents[0].id.as_str(), "chronicle:agent:testagent");
    assert_eq!(m.agents[0].publickey, Some("abcd".to_string()));
    assert!(m.agents[0].prior_keys.is_empty());
}

#[test]
fn rotating_a_key_keeps_the_old_one_in_history() {
    let m = build(&[create_namespace(), create_agent(), register_key("aa"), register_key("bb"), register_key("cc")]);
    assert_eq!(m.agents[0].publickey, Some("cc".to_string()));
    assert_eq!(m.agents[0].prior_keys, vec!["aa".to_string(), "bb".to_string()]);
}

#[test]
fn start_and_end_with_explicit_time() {
    let t = at(9, 10, 11);
    let m = build(&[create_namespace(), create_agent(), register_key("aa"), start(t), end(t)]);
    assert_eq!(m.activities.len(), 1);
    assert_eq!(m.activities[0].started, Some(t));
    assert_eq!(m.activities[0].ended, Some(t));
    assert_eq!(m.was_associated_with.len(), 1);
    assert_eq!(t.to_text(), "2014-07-08T09:10:11Z");
}

#[test]
fn using_twice_records_one_edge() {
    let t = at(9, 10, 11);
    let once = build(&[create_namespace(), create_agent(), start(t), end(t), uses()]);
    let twice = build(&[create_namespace(), create_agent(), start(t), end(t), uses(), uses()]);
    assert_eq!(twice.entities.len(), 1);
    assert_eq!(twice.used.len(), 1);
    assert_eq!(snapshot(&once), snapshot(&twice));
}

#[test]
fn every_operation_applied_twice_changes_nothing() {
    let t = at(9, 10, 11);
    let ops = vec![
        create_namespace(), create_agent(), register_key("aa"),
        ChronicleTransaction::CreateActivity(CreateActivity {
            namespace: ns(),
            id: ActivityId::from_name("other"),
            name: "other".to_string(),
        }),
        start(t), end(t), uses(), generate(), attach("00ff", Some("file://x")),
    ];
    let mut m = ProvModel::new();
    for op in &ops {
        m.apply(op).unwrap();
        let before = snapshot(&m);
        m.apply(op).unwrap();
        assert_eq!(before, snapshot(&m));
    }
}

#[test]
fn stubs_are_named_after_their_identifiers() {
    let m = build(&[generate()]);
    assert_eq!(m.namespaces.len(), 1);
    assert_eq!(m.namespaces[0].name, "testns");
    assert_eq!(m.namespaces[0].uuid, "5a0ab5b8-eeb7-4812-9fe3-6dd69bd20cea");
    assert_eq!(m.activities[0].name, "testactivity");
    assert_eq!(m.entities[0].name, "testentity");
    assert_eq!(m.was_generated_by.len(), 1);
}

#[test]
fn relations_stay_inside_their_namespace() {
    let t = at(9, 10, 11);
    let m = build(&[start(t), uses(), generate()]);
    for e in m.was_associated_with.iter().chain(m.used.iter()).chain(m.was_generated_by.iter()) {
        assert_eq!(e.namespace, ns().as_str());
    }
    assert!(m.agents.iter().all(|a| a.namespaceid == ns()));
    assert!(m.entities.iter().all(|e| e.namespaceid == ns()));
}

#[test]
fn relations_do_not_depend_on_order() {
    let t = at(9, 10, 11);
    let a = build(&[uses(), generate(), start(t)]);
    let b = build(&[start(t), generate(), uses()]);
    let mut ea: Vec<_> = a.used.iter().chain(a.was_generated_by.iter()).chain(a.was_associated_with.iter())
        .map(|e| (e.namespace.clone(), e.subject.clone(), e.object.clone())).collect();
    let mut eb: Vec<_> = b.used.iter().chain(b.was_generated_by.iter()).chain(b.was_associated_with.iter())
        .map(|e| (e.namespace.clone(), e.subject.clone(), e.object.clone())).collect();
    ea.sort();
    eb.sort();
    assert_eq!(ea, eb);
    assert_eq!(a.activities.len(), b.activities.len());
    assert_eq!(a.entities.len(), b.entities.len());
}

#[test]
fn first_start_time_is_kept() {
    let m = build(&[start(at(9, 0, 0)), start(at(8, 0, 0))]);
    assert_eq!(m.activities[0].started, Some(at(9, 0, 0)));
}

#[test]
fn ending_before_the_start_is_refused() {
    let mut m = build(&[start(at(9, 0, 0))]);
    assert_eq!(m.apply(&end(at(8, 59, 59))), Err(ProcessorError::ConstraintViolation));
    assert_eq!(m.activities[0].ended, None);
    let mut m = build(&[end(at(9, 0, 0))]);
    assert_eq!(m.apply(&start(at(9, 0, 1))), Err(ProcessorError::ConstraintViolation));
    assert_eq!(m.activities[0].started, None);
}

#[test]
fn attaching_without_a_signer_key_is_refused() {
    let mut m = build(&[create_namespace(), create_agent()]);
    assert_eq!(m.apply(&attach("00", None)), Err(ProcessorError::UnknownSigner));
    assert!(m.entities.is_empty());
}

#[test]
fn attachment_history_grows() {
    let m = build(&[create_agent(), register_key("aa"), attach("01", None), attach("02", Some("loc")), attach("03", None)]);
    let e = &m.entities[0];
    assert_eq!(e.attachment.as_ref().unwrap().signature, "03");
    assert_eq!(e.prior_attachments.len(), 2);
    assert_eq!(e.prior_attachments[1].locator, Some("loc".to_string()));
}

#[test]
fn batch_fails_as_a_whole() {
    let ok = vec![create_namespace(), create_agent(), register_key("aa")];
    let m = ProvModel::from_tx(&ok).unwrap();
    assert_eq!(m.agents.len(), 1);
    let bad = vec![create_namespace(), start(at(9, 0, 0)), end(at(8, 0, 0)), uses()];
    assert_eq!(ProvModel::from_tx(&bad).err(), Some(ProcessorError::ConstraintViolation));
}
