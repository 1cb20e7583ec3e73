use chronicle::address::{family_prefix, hash_and_append, key_address, policy_address, policy_meta_address, LedgerAddress, FAMILY};
use chronicle::ids::{ActivityId, AgentId, EntityId, NamespaceId};
use chronicle::ledger::{Offset, StateInput, StateOutput, SubmissionError};
use chronicle::model::{ProcessorError, ProvModel};
use chronicle::ops::{ActivityUses, ChronicleTransaction, StartActivity};
use chronicle::projection::NameIndex;
use chronicle::text::decimal_text;
use chronicle::time::Timestamp;
use sha2::Digest;

fn digest_hex(s: &str) -> String {
    hex::encode(sha2::Sha256::digest(s.as_bytes()))
}

fn ns() -> NamespaceId {
    NamespaceId::new("chronicle:ns:testns:5a0ab5b8-eeb7-4812-9fe3-6dd69bd20cea")
}

#[test]
fn addresses_are_prefix_and_digest() {
    let prefix = family_prefix(FAMILY);
    assert_eq!(prefix, digest_hex("chronicle")[..6].to_string());
    let a = LedgerAddress { namespace: "ns".to_string(), resource: "r".to_string() };
    let addr = a.to_address();
    assert_eq!(addr.len(), 70);
    assert_eq!(addr, format!("{}{}", prefix, digest_hex("ns:r")));
    let b = LedgerAddress { namespace: "ns".to_string(), resource: "s".to_string() };
    assert_ne!(addr, b.to_address());
}

#[test]
fn policy_and_key_addresses() {
    let p = family_prefix("opa");
    assert_eq!(policy_address("x"), format!("{}{}", p, digest_hex("opa:policy:binary:x")));
    assert_eq!(policy_meta_address("x"), format!("{}{}", p, digest_hex("opa:policy:meta:x")));
    assert_eq!(key_address("x"), format!("{}{}", p, digest_hex("opa:keys:x")));
    assert_eq!(hash_and_append("opa", "t").len(), 70);
}

#[test]
fn offsets() {
    assert_eq!(Offset::from_height(0), Offset::Genesis);
    assert_eq!(Offset::from_height(42), Offset::From(42));
    assert_eq!(Offset::Genesis.to_text(), "");
    assert_eq!(Offset::From(42).to_text(), "42");
    assert_eq!(decimal_text(0), "0");
    assert_eq!(decimal_text(u64::MAX), "18446744073709551615");
}

#[test]
fn state_entries_and_errors() {
    let i = StateInput::new(vec![1, 2]);
    assert_eq!(i.data, vec![1, 2]);
    let a = LedgerAddress { namespace: "n".to_string(), resource: "r".to_string() };
    let o = StateOutput::new(a.clone(), vec![3]);
    assert_eq!(o.address, a);
    let e = SubmissionError::from_processor(ProcessorError::UnknownSigner);
    assert_eq!(e, SubmissionError::Processor { source: ProcessorError::UnknownSigner });
    assert_eq!(e.message(), "Processor error");
    assert_eq!(SubmissionError::Implementation { source: "x".to_string() }.message(), "Ledger error");
}

#[test]
fn dependencies_name_every_resource_touched() {
    let op = ChronicleTransaction::ActivityUses(ActivityUses {
        namespace: ns(),
        id: EntityId::from_name("e"),
        activity: ActivityId::from_name("a"),
    });
    let deps = op.dependencies();
    assert_eq!(deps.len(), 2);
    assert_eq!(deps[0].resource, "chronicle:activity:a");
    assert_eq!(deps[1].resource, "chronicle:entity:e");
    assert!(deps.iter().all(|d| d.namespace == ns().as_str()));
}

#[test]
fn processing_writes_the_touched_nodes() {
    let op = ChronicleTransaction::StartActivity(StartActivity {
        namespace: ns(),
        id: ActivityId::from_name("a"),
        agent: AgentId::from_name("g"),
        time: Timestamp::new(2014, 7, 8, 9, 10, 11).unwrap(),
    });
    let mut m = ProvModel::new();
    let outs = op.process(&mut m).unwrap();
    assert_eq!(outs.len(), 2);
    let activity = String::from_utf8(outs[0].data.clone()).unwrap();
    assert_eq!(
        activity,
        "{\"@type\":\"prov:Activity\",\"@id\":\"chronicle:activity:a\",\"namespace\":\"chronicle:ns:testns:5a0ab5b8-eeb7-4812-9fe3-6dd69bd20cea\",\"name\":\"a\",\"startedAtTime\":[\"2014-07-08T09:10:11Z\"],\"endedAtTime\":[],\"wasAssociatedWith\":[\"chronicle:agent:g\"],\"used\":[]}"
    );
    let agent = String::from_utf8(outs[1].data.clone()).unwrap();
    assert!(agent.starts_with("{\"@type\":\"prov:Agent\",\"@id\":\"chronicle:agent:g\""));
    assert_eq!(outs[1].address.resource, "chronicle:agent:g");
}

#[test]
fn many_activities_are_disambiguated() {
    let mut index = NameIndex::new();
    let ns = "testns".to_string();
    let mut names = Vec::new();
    for _ in 0..100 {
        names.push(index.add(&ns, &"a".to_string()));
    }
    assert_eq!(names[0], "a");
    assert_eq!(names[1], "a-1");
    assert_eq!(names[99], "a-99");
    assert_eq!(index.len(), 100);
    let ids: std::collections::HashSet<String> =
        names.iter().map(|n| ActivityId::from_name(n).as_str().to_string()).collect();
    assert_eq!(ids.len(), 100);
    assert_eq!(index.disambiguate(&"other".to_string(), &"a".to_string()), "a");
}
