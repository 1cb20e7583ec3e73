//! The operations that change a provenance model, one variant per business fact.
use vstd::prelude::*;
use crate::ids::{ActivityId, AgentId, EntityId, NamespaceId};
use crate::time::Timestamp;

verus! {

/// Creates a namespace; nothing happens when it is present.
#[derive(PartialEq, Debug, Clone)]
pub struct CreateNamespace {
    pub id: NamespaceId,
    pub name: String,
    /// The namespace's uuid in its hyphenated text form.
    pub uuid: String,
}

/// Creates an agent; nothing happens when it is present.
#[derive(PartialEq, Debug, Clone)]
pub struct CreateAgent {
    pub namespace: NamespaceId,
    pub name: String,
    pub id: AgentId,
}

/// Makes `publickey` the agent's current key; the key it had moves to its history.
#[derive(PartialEq, Debug, Clone)]
pub struct RegisterKey {
    pub namespace: NamespaceId,
    pub id: AgentId,
    /// Lowercase hex of the DER-encoded verifying key.
    pub publickey: String,
    pub name: String,
}

/// Creates an activity; nothing happens when it is present.
#[derive(PartialEq, Debug, Clone)]
pub struct CreateActivity {
    pub namespace: NamespaceId,
    pub id: ActivityId,
    pub name: String,
}

/// Starts an activity at `time` and associates the agent.
#[derive(PartialEq, Debug, Clone)]
pub struct StartActivity {
    pub namespace: NamespaceId,
    pub id: ActivityId,
    pub agent: AgentId,
    pub time: Timestamp,
}

/// Ends an activity at `time` and associates the agent.
#[derive(PartialEq, Debug, Clone)]
pub struct EndActivity {
    pub namespace: NamespaceId,
    pub id: ActivityId,
    pub agent: AgentId,
    pub time: Timestamp,
}

/// Records that the activity used the entity `id`.
#[derive(PartialEq, Debug, Clone)]
pub struct ActivityUses {
    pub namespace: NamespaceId,
    pub id: EntityId,
    pub activity: ActivityId,
}

/// Records that the entity `id` was generated by the activity.
#[derive(PartialEq, Debug, Clone)]
pub struct GenerateEntity {
    pub namespace: NamespaceId,
    pub id: EntityId,
    pub activity: ActivityId,
}

/// Binds a signed attachment to the entity `id`; `agent` is the signer.
#[derive(PartialEq, Debug, Clone)]
pub struct EntityAttach {
    pub namespace: NamespaceId,
    pub id: EntityId,
    pub agent: AgentId,
    /// Lowercase hex of the signature.
    pub signature: String,
    pub locator: Option<String>,
    pub signature_time: Timestamp,
}

#[derive(PartialEq, Debug, Clone)]
pub enum ChronicleTransaction {
    CreateNamespace(CreateNamespace),
    CreateAgent(CreateAgent),
    RegisterKey(RegisterKey),
    CreateActivity(CreateActivity),
    StartActivity(StartActivity),
    EndActivity(EndActivity),
    ActivityUses(ActivityUses),
    GenerateEntity(GenerateEntity),
    EntityAttach(EntityAttach),
}

impl ChronicleTransaction {
    /// The namespace that the operation speaks of.
    pub open spec fn namespace_of(&self) -> Seq<char> {
        match self {
            ChronicleTransaction::CreateNamespace(o) => o.id@,
            ChronicleTransaction::CreateAgent(o) => o.namespace@,
            ChronicleTransaction::RegisterKey(o) => o.namespace@,
            ChronicleTransaction::CreateActivity(o) => o.namespace@,
            ChronicleTransaction::StartActivity(o) => o.namespace@,
            ChronicleTransaction::EndActivity(o) => o.namespace@,
            ChronicleTransaction::ActivityUses(o) => o.namespace@,
            ChronicleTransaction::GenerateEntity(o) => o.namespace@,
            ChronicleTransaction::EntityAttach(o) => o.namespace@,
        }
    }

    pub fn namespace(&self) -> (r: &NamespaceId)
        ensures
            r@ == self.namespace_of(),
    {
        match self {
            ChronicleTransaction::CreateNamespace(o) => &o.id,
            ChronicleTransaction::CreateAgent(o) => &o.namespace,
            ChronicleTransaction::RegisterKey(o) => &o.namespace,
            ChronicleTransaction::CreateActivity(o) => &o.namespace,
            ChronicleTransaction::StartActivity(o) => &o.namespace,
            ChronicleTransaction::EndActivity(o) => &o.namespace,
            ChronicleTransaction::ActivityUses(o) => &o.namespace,
            ChronicleTransaction::GenerateEntity(o) => &o.namespace,
            ChronicleTransaction::EntityAttach(o) => &o.namespace,
        }
    }
}

} // verus!
