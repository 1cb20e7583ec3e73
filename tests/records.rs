use chronicle::ids::{ActivityId, AgentId, EntityId, NamespaceId};
use chronicle::model::{Activity, Agent, Entity, Namespace, ProvModel};

fn ns() -> NamespaceId {
    NamespaceId::from_name("testns", "a1a2a3a4-b1b2-c1c2-d1d2-d3d4d5d6d7d8")
}

#[test]
fn records_are_built_empty() {
    let a = Agent::new(AgentId::from_name("g"), ns(), "g".to_string(), Some("aa".to_string()));
    assert_eq!(a.publickey, Some("aa".to_string()));
    assert!(a.prior_keys.is_empty());
    let act = Activity::new(ActivityId::from_name("a"), ns(), "a");
    assert_eq!(act.name, "a");
    assert!(act.started.is_none() && act.ended.is_none());
    let e = Entity::unsigned(EntityId::from_name("e"), &ns(), "e");
    assert_eq!(e.name(), "e");
    assert_eq!(e.id(), &EntityId::from_name("e"));
    assert_eq!(e.namespaceid(), &ns());
    assert!(e.attachment.is_none());
    let n = Namespace::new(ns(), "a1a2a3a4-b1b2-c1c2-d1d2-d3d4d5d6d7d8".to_string(), "testns".to_string());
    assert_eq!(n.name, "testns");
}

#[test]
fn relations_are_added_once() {
    let mut m = ProvModel::new();
    m.associate_with(&ns(), &ActivityId::from_name("a"), &AgentId::from_name("g"));
    m.associate_with(&ns(), &ActivityId::from_name("a"), &AgentId::from_name("g"));
    m.generate_by(&ns(), &EntityId::from_name("e"), &ActivityId::from_name("a"));
    m.used(&ns(), &ActivityId::from_name("a"), &EntityId::from_name("e"));
    assert_eq!(m.was_associated_with.len(), 1);
    assert_eq!(m.was_generated_by.len(), 1);
    assert_eq!(m.used.len(), 1);
    assert_eq!(m.was_generated_by[0].subject, "chronicle:entity:e");
}

#[test]
fn the_whole_model_as_nodes() {
    let mut m = ProvModel::new();
    m.namespace_context(&ns());
    let texts = m.to_json();
    assert_eq!(texts.len(), 1);
    assert_eq!(
        texts[0],
        "{\"@type\":\"chronicle:Namespace\",\"@id\":\"chronicle:ns:testns:a1a2a3a4-b1b2-c1c2-d1d2-d3d4d5d6d7d8\",\"name\":\"testns\",\"uuid\":\"a1a2a3a4-b1b2-c1c2-d1d2-d3d4d5d6d7d8\"}"
    );
    assert!(ProvModel::new().to_json().is_empty());
}

#[test]
fn nodes_and_relations_come_in_identifier_order() {
    let mut m = ProvModel::new();
    let b = Agent::new(AgentId::from_name("b"), ns(), "b".to_string(), None);
    let a = Agent::new(AgentId::from_name("a"), ns(), "a".to_string(), None);
    for op in [
        chronicle::ops::ChronicleTransaction::CreateAgent(chronicle::ops::CreateAgent { namespace: ns(), name: "b".to_string(), id: b.id.clone() }),
        chronicle::ops::ChronicleTransaction::CreateAgent(chronicle::ops::CreateAgent { namespace: ns(), name: "a".to_string(), id: a.id.clone() }),
    ] {
        m.apply(&op).unwrap();
    }
    assert_eq!(m.agents[0].name, "a");
    assert_eq!(m.agents[1].name, "b");
    let texts = m.to_json();
    assert!(texts[1].contains("\"@id\":\"chronicle:agent:a\""));
    assert!(texts[2].contains("\"@id\":\"chronicle:agent:b\""));
    m.associate_with(&ns(), &ActivityId::from_name("x"), &AgentId::from_name("z"));
    m.associate_with(&ns(), &ActivityId::from_name("x"), &AgentId::from_name("y"));
    let act = Activity::new(ActivityId::from_name("x"), ns(), "x");
    let text = m.activity_to_json(&act);
    assert!(text.contains("\"wasAssociatedWith\":[\"chronicle:agent:y\",\"chronicle:agent:z\"]"));
}

#[test]
fn dependencies_name_each_address_once() {
    let same = chronicle::ops::ChronicleTransaction::StartActivity(chronicle::ops::StartActivity {
        namespace: ns(),
        id: ActivityId::new("chronicle:x"),
        agent: AgentId::new("chronicle:x"),
        time: chronicle::time::Timestamp::new(2014, 7, 8, 9, 10, 11).unwrap(),
    });
    assert_eq!(same.dependencies().len(), 1);
    let create = chronicle::ops::ChronicleTransaction::CreateNamespace(chronicle::ops::CreateNamespace {
        id: ns(),
        name: "testns".to_string(),
        uuid: "a1a2a3a4-b1b2-c1c2-d1d2-d3d4d5d6d7d8".to_string(),
    });
    let deps = create.dependencies();
    assert_eq!(deps.len(), 1);
    assert_eq!(deps[0].resource, ns().as_str());
    let mut m = ProvModel::new();
    let outs = create.process(&mut m).unwrap();
    assert_eq!(outs.len(), 1);
    assert!(String::from_utf8(outs[0].data.clone()).unwrap().starts_with("{\"@type\":\"chronicle:Namespace\""));
}
