//! What a ledger reads and writes: offsets, state entries and the addresses an
//! operation depends on.
use vstd::prelude::*;
use crate::address::LedgerAddress;
use crate::model::{activity_keys, agent_keys, entity_keys, Key, ProcessorError};
use crate::ops::ChronicleTransaction;
use crate::text::{decimal, decimal_text};

verus! {

/// Why a submission to the ledger failed.
#[derive(Debug, Clone, PartialEq, Eq)]
pub enum SubmissionError {
    /// The ledger's transport failed; the text says how.
    Implementation { source: String },
    /// The operations could not be applied.
    Processor { source: ProcessorError },
}

/// Why a subscription to the ledger's updates failed.
#[derive(Debug, Clone, PartialEq, Eq)]
pub enum SubscriptionError {
    Implementation { source: String },
}

impl SubmissionError {
    pub fn from_processor(source: ProcessorError) -> (r: SubmissionError)
        ensures
            r == (SubmissionError::Processor { source }),
    {
        SubmissionError::Processor { source }
    }

    /// The kind of the error, in words.
    pub fn message(&self) -> (r: &'static str)
        ensures
            r@ == (match self {
                SubmissionError::Implementation { .. } => "Ledger error"@,
                SubmissionError::Processor { .. } => "Processor error"@,
            }),
    {
        proof {
            reveal_strlit("Ledger error");
            reveal_strlit("Processor error");
        }
        match self {
            SubmissionError::Implementation { .. } => "Ledger error",
            SubmissionError::Processor { .. } => "Processor error",
        }
    }
}

/// A position in the ledger's history of committed blocks.
#[derive(Debug, Copy, Clone, PartialEq, Eq)]
pub enum Offset {
    Genesis,
    From(u64),
}

impl Offset {
    /// Height 0 is the genesis; any other height is an offset from it.
    pub fn from_height(offset: u64) -> (r: Offset)
        ensures
            offset == 0 ==> r == Offset::Genesis,
            offset != 0 ==> r == Offset::From(offset),
    {
        if offset == 0 {
            Offset::Genesis
        } else {
            Offset::From(offset)
        }
    }

    /// The offset as text: empty for the genesis, else its decimal digits.
    pub fn to_text(&self) -> (r: String)
        ensures
            r@ == (match self {
                Offset::Genesis => Seq::<char>::empty(),
                Offset::From(x) => decimal(*x as nat),
            }),
    {
        match self {
            Offset::Genesis => String::new(),
            Offset::From(x) => decimal_text(*x),
        }
    }
}

/// The bytes held at one address, read before a transaction is processed.
#[derive(Debug, Clone, PartialEq, Eq)]
pub struct StateInput {
    pub data: Vec<u8>,
}

impl StateInput {
    pub fn new(data: Vec<u8>) -> (r: StateInput)
        ensures
            r.data@ == data@,
    {
        StateInput { data }
    }
}

/// The bytes to be written at one address.
#[derive(Debug, Clone, PartialEq, Eq)]
pub struct StateOutput {
    pub address: LedgerAddress,
    pub data: Vec<u8>,
}

impl StateOutput {
    pub fn new(address: LedgerAddress, data: Vec<u8>) -> (r: StateOutput)
        ensures
            r.address == address,
            r.data@ == data@,
    {
        StateOutput { address, data }
    }
}

/// The resources that addresses stand for.
pub open spec fn address_keys(v: Seq<LedgerAddress>) -> Set<Key> {
    Set::new(|k: Key| exists|i: int| 0 <= i < v.len() && (v[i].namespace@, v[i].resource@) == k)
}

/// The resources whose state applying `op` reads and writes.
pub open spec fn dependency_keys(op: ChronicleTransaction) -> Set<Key> {
    let own = match op {
        ChronicleTransaction::CreateNamespace(o) => set![(o.id@, o.id@)],
        _ => Set::empty(),
    };
    own.union(agent_keys(op)).union(activity_keys(op)).union(entity_keys(op))
}

/// The resources `a` and `b` of `ns`, listed once each.
pub open spec fn pair(ns: Seq<char>, a: Seq<char>, b: Seq<char>) -> Seq<Key> {
    if a == b {
        seq![(ns, a)]
    } else {
        seq![(ns, a), (ns, b)]
    }
}

/// The resources whose state applying `op` reads and writes, in the order they are listed,
/// each once.
pub open spec fn dependency_seq(op: ChronicleTransaction) -> Seq<Key> {
    match op {
        ChronicleTransaction::CreateNamespace(o) => seq![(o.id@, o.id@)],
        ChronicleTransaction::CreateAgent(o) => seq![(o.namespace@, o.id@)],
        ChronicleTransaction::RegisterKey(o) => seq![(o.namespace@, o.id@)],
        ChronicleTransaction::CreateActivity(o) => seq![(o.namespace@, o.id@)],
        ChronicleTransaction::StartActivity(o) => pair(o.namespace@, o.id@, o.agent@),
        ChronicleTransaction::EndActivity(o) => pair(o.namespace@, o.id@, o.agent@),
        ChronicleTransaction::ActivityUses(o) => pair(o.namespace@, o.activity@, o.id@),
        ChronicleTransaction::GenerateEntity(o) => pair(o.namespace@, o.activity@, o.id@),
        ChronicleTransaction::EntityAttach(o) => seq![(o.namespace@, o.id@)],
    }
}

pub open spec fn address_seq(v: Seq<LedgerAddress>) -> Seq<Key> {
    v.map_values(|a: LedgerAddress| (a.namespace@, a.resource@))
}

fn address(ns: &String, resource: &String) -> (r: LedgerAddress)
    ensures
        r.namespace@ == ns@,
        r.resource@ == resource@,
{
    LedgerAddress { namespace: ns.clone(), resource: resource.clone() }
}

impl ChronicleTransaction {
    /// The addresses of the resources that the operation names; input and output
    /// addresses are the same.
    pub fn dependencies(&self) -> (r: Vec<LedgerAddress>)
        ensures
            address_seq(r@) == dependency_seq(*self),
            address_seq(r@).no_duplicates(),
            address_keys(r@) == dependency_keys(*self),
    {
        let mut v: Vec<LedgerAddress> = Vec::new();
        match self {
            ChronicleTransaction::CreateNamespace(o) => {
                v.push(address(&o.id.0, &o.id.0));
            },
            ChronicleTransaction::CreateAgent(o) => {
                v.push(address(&o.namespace.0, &o.id.0));
            },
            ChronicleTransaction::RegisterKey(o) => {
                v.push(address(&o.namespace.0, &o.id.0));
            },
            ChronicleTransaction::CreateActivity(o) => {
                v.push(address(&o.namespace.0, &o.id.0));
            },
            ChronicleTransaction::StartActivity(o) => {
                v.push(address(&o.namespace.0, &o.id.0));
                if o.agent.0 != o.id.0 {
                    v.push(address(&o.namespace.0, &o.agent.0));
                }
            },
            ChronicleTransaction::EndActivity(o) => {
                v.push(address(&o.namespace.0, &o.id.0));
                if o.agent.0 != o.id.0 {
                    v.push(address(&o.namespace.0, &o.agent.0));
                }
            },
            ChronicleTransaction::ActivityUses(o) => {
                v.push(address(&o.namespace.0, &o.activity.0));
                if o.id.0 != o.activity.0 {
                    v.push(address(&o.namespace.0, &o.id.0));
                }
            },
            ChronicleTransaction::GenerateEntity(o) => {
                v.push(address(&o.namespace.0, &o.activity.0));
                if o.id.0 != o.activity.0 {
                    v.push(address(&o.namespace.0, &o.id.0));
                }
            },
            ChronicleTransaction::EntityAttach(o) => {
                v.push(address(&o.namespace.0, &o.id.0));
            },
        }
        proof {
            let ks = address_keys(v@);
            if v@.len() > 0 {
                assert((v@[0].namespace@, v@[0].resource@) == (v@[0].namespace@, v@[0].resource@));
                assert(ks.contains((v@[0].namespace@, v@[0].resource@)));
            }
            if v@.len() > 1 {
                assert(ks.contains((v@[1].namespace@, v@[1].resource@)));
            }
            assert(ks =~= dependency_keys(*self));
            assert(address_seq(v@) =~= dependency_seq(*self));
            assert(address_seq(v@).no_duplicates());
        }
        v
    }
}

} // verus!
