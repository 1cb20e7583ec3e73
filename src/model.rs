//! The provenance model: namespaces, agents, activities and entities held in tables
//! keyed by namespace and identifier, with the relations between them.
use vstd::prelude::*;
use crate::ids::{segment, ActivityId, AgentId, EntityId, NamespaceId};
use crate::ops::ChronicleTransaction;
use crate::time::{time_lt, Timestamp};
use crate::order::{lemma_str_lt_total, seqs_lt, str_less, str_lt};
use crate::table::{insert_sorted, keys_unique, lemma_sorted_update, lemma_table_dom, lemma_table_index,
    lemma_table_update, sorted, table, Record};

verus! {

/// A resource's place in the model: its namespace and its identifier.
pub type Key = (Seq<char>, Seq<char>);

/// A relation between two resources of one namespace: (namespace, subject, object).
pub type EdgeKey = (Seq<char>, Seq<char>, Seq<char>);

pub open spec fn opt_view(o: Option<String>) -> Option<Seq<char>> {
    match o {
        Some(s) => Some(s@),
        None => None,
    }
}

pub open spec fn strs_view(v: Seq<String>) -> Seq<Seq<char>> {
    v.map_values(|s: String| s@)
}

#[verifier::ext_equal]
pub struct NamespaceV {
    pub name: Seq<char>,
    pub uuid: Seq<char>,
}

#[verifier::ext_equal]
pub struct AgentV {
    pub name: Seq<char>,
    /// The current public key.
    pub key: Option<Seq<char>>,
    /// Keys that were current before, oldest first.
    pub prior: Seq<Seq<char>>,
}

#[verifier::ext_equal]
pub struct ActivityV {
    pub name: Seq<char>,
    pub started: Option<Timestamp>,
    pub ended: Option<Timestamp>,
}

#[verifier::ext_equal]
pub struct AttachmentV {
    pub signer: Seq<char>,
    pub signature: Seq<char>,
    pub locator: Option<Seq<char>>,
    pub time: Timestamp,
}

#[verifier::ext_equal]
pub struct EntityV {
    pub name: Seq<char>,
    pub attachment: Option<AttachmentV>,
    /// Attachments that were current before, oldest first.
    pub prior: Seq<AttachmentV>,
}

/// The mathematical content of a provenance model.
#[verifier::ext_equal]
pub struct ModelV {
    pub namespaces: Map<Seq<char>, NamespaceV>,
    pub agents: Map<Key, AgentV>,
    pub activities: Map<Key, ActivityV>,
    pub entities: Map<Key, EntityV>,
    /// (namespace, activity, agent)
    pub associated: Set<EdgeKey>,
    /// (namespace, entity, activity)
    pub generated: Set<EdgeKey>,
    /// (namespace, activity, entity)
    pub used: Set<EdgeKey>,
}

#[derive(Debug, Clone)]
pub struct Namespace {
    pub id: NamespaceId,
    /// The uuid in its hyphenated text form.
    pub uuid: String,
    pub name: String,
}

#[derive(Debug, Clone)]
pub struct Agent {
    pub id: AgentId,
    pub namespaceid: NamespaceId,
    pub name: String,
    pub publickey: Option<String>,
    pub prior_keys: Vec<String>,
}

#[derive(Debug, Clone)]
pub struct Activity {
    pub id: ActivityId,
    pub namespaceid: NamespaceId,
    pub name: String,
    pub started: Option<Timestamp>,
    pub ended: Option<Timestamp>,
}

#[derive(Debug, Clone)]
pub struct Attachment {
    pub signer: AgentId,
    pub signature: String,
    pub locator: Option<String>,
    pub signature_time: Timestamp,
}

#[derive(Debug, Clone)]
pub struct Entity {
    pub id: EntityId,
    pub namespaceid: NamespaceId,
    pub name: String,
    pub attachment: Option<Attachment>,
    pub prior_attachments: Vec<Attachment>,
}

/// One relation between two resources of a namespace.
#[derive(Debug, Clone)]
pub struct Edge {
    pub namespace: String,
    pub subject: String,
    pub object: String,
}

impl View for Attachment {
    type V = AttachmentV;

    open spec fn view(&self) -> AttachmentV {
        AttachmentV {
            signer: self.signer@,
            signature: self.signature@,
            locator: opt_view(self.locator),
            time: self.signature_time,
        }
    }
}

pub open spec fn opt_attachment_view(o: Option<Attachment>) -> Option<AttachmentV> {
    match o {
        Some(a) => Some(a@),
        None => None,
    }
}

pub open spec fn attachments_view(v: Seq<Attachment>) -> Seq<AttachmentV> {
    v.map_values(|a: Attachment| a@)
}

impl Record for Namespace {
    type K = Seq<char>;

    type V = NamespaceV;

    open spec fn key(&self) -> Seq<char> {
        self.id@
    }

    open spec fn value(&self) -> NamespaceV {
        NamespaceV { name: self.name@, uuid: self.uuid@ }
    }

    open spec fn rank(&self) -> Seq<Seq<char>> {
        seq![self.id@]
    }

    proof fn lemma_rank_key(a: &Self, b: &Self) {
        if a.rank() == b.rank() {
            assert(a.rank()[0] == b.rank()[0]);
        }
        if a.key() == b.key() {
            assert(a.rank() =~= b.rank());
        }
    }

    fn before(&self, other: &Self) -> (r: bool) {
        proof {
            reveal_with_fuel(seqs_lt, 2);
            lemma_str_lt_total(self.id@, other.id@);
            assert(self.rank().drop_first() =~= Seq::<Seq<char>>::empty());
            assert(other.rank().drop_first() =~= Seq::<Seq<char>>::empty());
        }
        str_less(&self.id.0, &other.id.0)
    }
}

impl Record for Agent {
    type K = Key;

    type V = AgentV;

    open spec fn key(&self) -> Key {
        (self.namespaceid@, self.id@)
    }

    open spec fn value(&self) -> AgentV {
        AgentV {
            name: self.name@,
            key: opt_view(self.publickey),
            prior: strs_view(self.prior_keys@),
        }
    }
    open spec fn rank(&self) -> Seq<Seq<char>> {
        seq![self.id.0@, self.namespaceid.0@]
    }

    proof fn lemma_rank_key(a: &Self, b: &Self) {
        if a.rank() == b.rank() {
            assert(a.rank()[0] == b.rank()[0] && a.rank()[1] == b.rank()[1]);
        }
        if a.key() == b.key() {
            assert(a.rank() =~= b.rank());
        }
    }

    fn before(&self, other: &Self) -> (r: bool) {
        proof {
            reveal_with_fuel(seqs_lt, 3);
            lemma_str_lt_total(self.namespaceid.0@, other.namespaceid.0@);
            let x = self.rank();
            let y = other.rank();
            assert(x.drop_first() =~= seq![self.namespaceid.0@]);
            assert(y.drop_first() =~= seq![other.namespaceid.0@]);
            assert(x.drop_first().drop_first() =~= Seq::<Seq<char>>::empty());
            assert(y.drop_first().drop_first() =~= Seq::<Seq<char>>::empty());
        }
        if self.id.0 != other.id.0 {
            str_less(&self.id.0, &other.id.0)
        } else {
            str_less(&self.namespaceid.0, &other.namespaceid.0)
        }
    }
}

impl Record for Activity {
    type K = Key;

    type V = ActivityV;

    open spec fn key(&self) -> Key {
        (self.namespaceid@, self.id@)
    }

    open spec fn value(&self) -> ActivityV {
        ActivityV { name: self.name@, started: self.started, ended: self.ended }
    }
    open spec fn rank(&self) -> Seq<Seq<char>> {
        seq![self.id.0@, self.namespaceid.0@]
    }

    proof fn lemma_rank_key(a: &Self, b: &Self) {
        if a.rank() == b.rank() {
            assert(a.rank()[0] == b.rank()[0] && a.rank()[1] == b.rank()[1]);
        }
        if a.key() == b.key() {
            assert(a.rank() =~= b.rank());
        }
    }

    fn before(&self, other: &Self) -> (r: bool) {
        proof {
            reveal_with_fuel(seqs_lt, 3);
            lemma_str_lt_total(self.namespaceid.0@, other.namespaceid.0@);
            let x = self.rank();
            let y = other.rank();
            assert(x.drop_first() =~= seq![self.namespaceid.0@]);
            assert(y.drop_first() =~= seq![other.namespaceid.0@]);
            assert(x.drop_first().drop_first() =~= Seq::<Seq<char>>::empty());
            assert(y.drop_first().drop_first() =~= Seq::<Seq<char>>::empty());
        }
        if self.id.0 != other.id.0 {
            str_less(&self.id.0, &other.id.0)
        } else {
            str_less(&self.namespaceid.0, &other.namespaceid.0)
        }
    }
}

impl Record for Entity {
    type K = Key;

    type V = EntityV;

    open spec fn key(&self) -> Key {
        (self.namespaceid@, self.id@)
    }

    open spec fn value(&self) -> EntityV {
        EntityV {
            name: self.name@,
            attachment: opt_attachment_view(self.attachment),
            prior: attachments_view(self.prior_attachments@),
        }
    }
    open spec fn rank(&self) -> Seq<Seq<char>> {
        seq![self.id.0@, self.namespaceid.0@]
    }

    proof fn lemma_rank_key(a: &Self, b: &Self) {
        if a.rank() == b.rank() {
            assert(a.rank()[0] == b.rank()[0] && a.rank()[1] == b.rank()[1]);
        }
        if a.key() == b.key() {
            assert(a.rank() =~= b.rank());
        }
    }

    fn before(&self, other: &Self) -> (r: bool) {
        proof {
            reveal_with_fuel(seqs_lt, 3);
            lemma_str_lt_total(self.namespaceid.0@, other.namespaceid.0@);
            let x = self.rank();
            let y = other.rank();
            assert(x.drop_first() =~= seq![self.namespaceid.0@]);
            assert(y.drop_first() =~= seq![other.namespaceid.0@]);
            assert(x.drop_first().drop_first() =~= Seq::<Seq<char>>::empty());
            assert(y.drop_first().drop_first() =~= Seq::<Seq<char>>::empty());
        }
        if self.id.0 != other.id.0 {
            str_less(&self.id.0, &other.id.0)
        } else {
            str_less(&self.namespaceid.0, &other.namespaceid.0)
        }
    }
}

impl Record for Edge {
    type K = EdgeKey;

    type V = ();

    open spec fn key(&self) -> EdgeKey {
        (self.namespace@, self.subject@, self.object@)
    }

    open spec fn value(&self) -> () {
        ()
    }

    open spec fn rank(&self) -> Seq<Seq<char>> {
        seq![self.namespace@, self.subject@, self.object@]
    }

    proof fn lemma_rank_key(a: &Self, b: &Self) {
        if a.rank() == b.rank() {
            assert(a.rank()[0] == b.rank()[0] && a.rank()[1] == b.rank()[1] && a.rank()[2] == b.rank()[2]);
        }
        if a.key() == b.key() {
            assert(a.rank() =~= b.rank());
        }
    }

    fn before(&self, other: &Self) -> (r: bool) {
        proof {
            reveal_with_fuel(seqs_lt, 4);
            lemma_str_lt_total(self.object@, other.object@);
            let x = self.rank();
            let y = other.rank();
            assert(x.drop_first() =~= seq![self.subject@, self.object@]);
            assert(y.drop_first() =~= seq![other.subject@, other.object@]);
            assert(x.drop_first().drop_first() =~= seq![self.object@]);
            assert(y.drop_first().drop_first() =~= seq![other.object@]);
            assert(x.drop_first().drop_first().drop_first() =~= Seq::<Seq<char>>::empty());
            assert(y.drop_first().drop_first().drop_first() =~= Seq::<Seq<char>>::empty());
        }
        if self.namespace != other.namespace {
            str_less(&self.namespace, &other.namespace)
        } else if self.subject != other.subject {
            str_less(&self.subject, &other.subject)
        } else {
            str_less(&self.object, &other.object)
        }
    }
}

/// Why an operation cannot be applied to a model.
#[derive(PartialEq, Eq, Structural, Debug, Clone, Copy)]
pub enum ProcessorError {
    /// An activity would end before it started.
    ConstraintViolation,
    /// An attachment names a signer that has no key in the namespace.
    UnknownSigner,
    /// A stored node is not the linked-data text of a resource.
    MalformedDocument,
}

/// The name that a resource created as a stub takes from its identifier.
pub open spec fn stub_name(id: Seq<char>) -> Seq<char> {
    segment(id, 2)
}

pub open spec fn with_namespace(m: ModelV, ns: Seq<char>) -> ModelV {
    if m.namespaces.contains_key(ns) {
        m
    } else {
        ModelV {
            namespaces: m.namespaces.insert(
                ns,
                NamespaceV { name: segment(ns, 2), uuid: segment(ns, 3) },
            ),
            ..m
        }
    }
}

pub open spec fn with_agent(m: ModelV, k: Key, name: Seq<char>) -> ModelV {
    if m.agents.contains_key(k) {
        m
    } else {
        ModelV { agents: m.agents.insert(k, AgentV { name, key: None, prior: Seq::empty() }), ..m }
    }
}

pub open spec fn with_activity(m: ModelV, k: Key, name: Seq<char>) -> ModelV {
    if m.activities.contains_key(k) {
        m
    } else {
        ModelV {
            activities: m.activities.insert(k, ActivityV { name, started: None, ended: None }),
            ..m
        }
    }
}

pub open spec fn with_entity(m: ModelV, k: Key, name: Seq<char>) -> ModelV {
    if m.entities.contains_key(k) {
        m
    } else {
        ModelV {
            entities: m.entities.insert(
                k,
                EntityV { name, attachment: None, prior: Seq::empty() },
            ),
            ..m
        }
    }
}

/// `key` becomes current; a different current key moves to the history.
pub open spec fn rotate_key(a: AgentV, key: Seq<char>) -> AgentV {
    if a.key == Some(key) {
        a
    } else {
        AgentV {
            key: Some(key),
            prior: match a.key {
                Some(c) => if a.prior.contains(c) {
                    a.prior
                } else {
                    a.prior.push(c)
                },
                None => a.prior,
            },
            ..a
        }
    }
}

/// `att` becomes current; a different current attachment moves to the history.
pub open spec fn rotate_attachment(e: EntityV, att: AttachmentV) -> EntityV {
    if e.attachment == Some(att) {
        e
    } else {
        EntityV {
            attachment: Some(att),
            prior: match e.attachment {
                Some(c) => if e.prior.contains(c) {
                    e.prior
                } else {
                    e.prior.push(c)
                },
                None => e.prior,
            },
            ..e
        }
    }
}

pub open spec fn start_at(a: ActivityV, t: Timestamp) -> ActivityV {
    if a.started is None {
        ActivityV { started: Some(t), ..a }
    } else {
        a
    }
}

pub open spec fn end_at(a: ActivityV, t: Timestamp) -> ActivityV {
    if a.ended is None {
        ActivityV { ended: Some(t), ..a }
    } else {
        a
    }
}

/// The error that applying `op` to `m` fails with, if any.
pub open spec fn op_error(m: ModelV, op: ChronicleTransaction) -> Option<ProcessorError> {
    match op {
        ChronicleTransaction::StartActivity(o) => if start_blocked(m, (o.namespace@, o.id@), o.time) {
            Some(ProcessorError::ConstraintViolation)
        } else {
            None
        },
        ChronicleTransaction::EndActivity(o) => if end_blocked(m, (o.namespace@, o.id@), o.time) {
            Some(ProcessorError::ConstraintViolation)
        } else {
            None
        },
        ChronicleTransaction::EntityAttach(o) => {
            let k = (o.namespace@, o.agent@);
            if m.agents.contains_key(k) && m.agents[k].key is Some {
                None
            } else {
                Some(ProcessorError::UnknownSigner)
            }
        },
        _ => None,
    }
}

/// Starting the activity `k` at `t` would put its start after its end.
pub open spec fn start_blocked(m: ModelV, k: Key, t: Timestamp) -> bool {
    m.activities.contains_key(k) && m.activities[k].started is None && m.activities[k].ended is Some
        && time_lt(m.activities[k].ended->0, t)
}

/// Ending the activity `k` at `t` would put its end before its start.
pub open spec fn end_blocked(m: ModelV, k: Key, t: Timestamp) -> bool {
    m.activities.contains_key(k) && m.activities[k].ended is None && m.activities[k].started is Some
        && time_lt(t, m.activities[k].started->0)
}

/// What applying `op` to `m` yields when `op_error(m, op)` is `None`: the resources that
/// `op` names are created as stubs where absent, then the operation's fact is recorded.
pub open spec fn apply_op(m: ModelV, op: ChronicleTransaction) -> ModelV {
    let ns = op.namespace_of();
    match op {
        ChronicleTransaction::CreateNamespace(o) => if m.namespaces.contains_key(o.id@) {
            m
        } else {
            ModelV {
                namespaces: m.namespaces.insert(o.id@, NamespaceV { name: o.name@, uuid: o.uuid@ }),
                ..m
            }
        },
        ChronicleTransaction::CreateAgent(o) => with_agent(
            with_namespace(m, ns),
            (ns, o.id@),
            o.name@,
        ),
        ChronicleTransaction::RegisterKey(o) => {
            let k = (ns, o.id@);
            let m1 = with_agent(with_namespace(m, ns), k, o.name@);
            ModelV { agents: m1.agents.insert(k, rotate_key(m1.agents[k], o.publickey@)), ..m1 }
        },
        ChronicleTransaction::CreateActivity(o) => with_activity(
            with_namespace(m, ns),
            (ns, o.id@),
            o.name@,
        ),
        ChronicleTransaction::StartActivity(o) => {
            let k = (ns, o.id@);
            let m1 = with_activity(with_namespace(m, ns), k, stub_name(o.id@));
            let m2 = ModelV {
                activities: m1.activities.insert(k, start_at(m1.activities[k], o.time)),
                ..m1
            };
            let m3 = with_agent(m2, (ns, o.agent@), stub_name(o.agent@));
            ModelV { associated: m3.associated.insert((ns, o.id@, o.agent@)), ..m3 }
        },
        ChronicleTransaction::EndActivity(o) => {
            let k = (ns, o.id@);
            let m1 = with_activity(with_namespace(m, ns), k, stub_name(o.id@));
            let m2 = ModelV {
                activities: m1.activities.insert(k, end_at(m1.activities[k], o.time)),
                ..m1
            };
            let m3 = with_agent(m2, (ns, o.agent@), stub_name(o.agent@));
            ModelV { associated: m3.associated.insert((ns, o.id@, o.agent@)), ..m3 }
        },
        ChronicleTransaction::ActivityUses(o) => {
            let m1 = with_activity(with_namespace(m, ns), (ns, o.activity@), stub_name(o.activity@));
            let m2 = with_entity(m1, (ns, o.id@), stub_name(o.id@));
            ModelV { used: m2.used.insert((ns, o.activity@, o.id@)), ..m2 }
        },
        ChronicleTransaction::GenerateEntity(o) => {
            let m1 = with_activity(with_namespace(m, ns), (ns, o.activity@), stub_name(o.activity@));
            let m2 = with_entity(m1, (ns, o.id@), stub_name(o.id@));
            ModelV { generated: m2.generated.insert((ns, o.id@, o.activity@)), ..m2 }
        },
        ChronicleTransaction::EntityAttach(o) => {
            let k = (ns, o.id@);
            let m1 = with_entity(with_namespace(m, ns), k, stub_name(o.id@));
            let att = AttachmentV {
                signer: o.agent@,
                signature: o.signature@,
                locator: opt_view(o.locator),
                time: o.signature_time,
            };
            ModelV { entities: m1.entities.insert(k, rotate_attachment(m1.entities[k], att)), ..m1 }
        },
    }
}

/// Applies `ops` in order to `m`, stopping at the first operation that fails.
pub open spec fn run_ops(m: ModelV, ops: Seq<ChronicleTransaction>) -> Result<ModelV, ProcessorError>
    decreases ops.len(),
{
    if ops.len() == 0 {
        Ok(m)
    } else {
        match run_ops(m, ops.drop_last()) {
            Err(e) => Err(e),
            Ok(m1) => match op_error(m1, ops.last()) {
                Some(e) => Err(e),
                None => Ok(apply_op(m1, ops.last())),
            },
        }
    }
}

pub open spec fn empty_model() -> ModelV {
    ModelV {
        namespaces: Map::empty(),
        agents: Map::empty(),
        activities: Map::empty(),
        entities: Map::empty(),
        associated: Set::empty(),
        generated: Set::empty(),
        used: Set::empty(),
    }
}

/// The provenance graph, each kind of resource in a table of its own.
#[derive(Debug)]
pub struct ProvModel {
    pub namespaces: Vec<Namespace>,
    pub agents: Vec<Agent>,
    pub activities: Vec<Activity>,
    pub entities: Vec<Entity>,
    pub was_associated_with: Vec<Edge>,
    pub was_generated_by: Vec<Edge>,
    pub used: Vec<Edge>,
}

impl View for ProvModel {
    type V = ModelV;

    open spec fn view(&self) -> ModelV {
        ModelV {
            namespaces: table(self.namespaces@),
            agents: table(self.agents@),
            activities: table(self.activities@),
            entities: table(self.entities@),
            associated: table(self.was_associated_with@).dom(),
            generated: table(self.was_generated_by@).dom(),
            used: table(self.used@).dom(),
        }
    }
}

pub(crate) fn same_str(a: &String, b: &String) -> (r: bool)
    ensures
        r == (a@ == b@),
{
    *a == *b
}

fn opt_str_copy(o: &Option<String>) -> (r: Option<String>)
    ensures
        opt_view(r) == opt_view(*o),
{
    match o {
        Some(s) => Some(s.clone()),
        None => None,
    }
}

impl ProvModel {
    /// Every table holds each key at most once.
    pub open spec fn wf(&self) -> bool {
        &&& keys_unique(self.namespaces@)
        &&& keys_unique(self.agents@)
        &&& keys_unique(self.activities@)
        &&& keys_unique(self.entities@)
        &&& keys_unique(self.was_associated_with@)
        &&& keys_unique(self.was_generated_by@)
        &&& keys_unique(self.used@)
        &&& sorted(self.namespaces@)
        &&& sorted(self.agents@)
        &&& sorted(self.activities@)
        &&& sorted(self.entities@)
        &&& sorted(self.was_associated_with@)
        &&& sorted(self.was_generated_by@)
        &&& sorted(self.used@)
    }

    /// The empty model.
    pub fn new() -> (r: ProvModel)
        ensures
            r.wf(),
            r@ == empty_model(),
    {
        let r = ProvModel {
            namespaces: Vec::new(),
            agents: Vec::new(),
            activities: Vec::new(),
            entities: Vec::new(),
            was_associated_with: Vec::new(),
            was_generated_by: Vec::new(),
            used: Vec::new(),
        };
        assert(r@.associated =~= Set::empty());
        assert(r@.generated =~= Set::empty());
        assert(r@.used =~= Set::empty());
        r
    }

    pub(crate) fn find_namespace(&self, ns: &NamespaceId) -> (r: Option<usize>)
        requires
            self.wf(),
        ensures
            match r {
                Some(i) => i < self.namespaces@.len() && self.namespaces@[i as int].key() == ns@,
                None => !self@.namespaces.contains_key(ns@),
            },
    {
        let mut i: usize = 0;
        while i < self.namespaces.len()
            invariant
                i <= self.namespaces@.len(),
                forall|j: int| 0 <= j < i ==> self.namespaces@[j].key() != ns@,
            decreases self.namespaces@.len() - i,
        {
            if same_str(&self.namespaces[i].id.0, &ns.0) {
                return Some(i);
            }
            i = i + 1;
        }
        proof {
            lemma_table_dom(self.namespaces@, ns@);
        }
        None
    }

    pub(crate) fn find_agent(&self, ns: &NamespaceId, id: &AgentId) -> (r: Option<usize>)
        requires
            self.wf(),
        ensures
            match r {
                Some(i) => i < self.agents@.len() && self.agents@[i as int].key() == (ns@, id@),
                None => !self@.agents.contains_key((ns@, id@)),
            },
    {
        let mut i: usize = 0;
        while i < self.agents.len()
            invariant
                i <= self.agents@.len(),
                forall|j: int| 0 <= j < i ==> self.agents@[j].key() != (ns@, id@),
            decreases self.agents@.len() - i,
        {
            if same_str(&self.agents[i].namespaceid.0, &ns.0) && same_str(&self.agents[i].id.0, &id.0) {
                return Some(i);
            }
            i = i + 1;
        }
        proof {
            lemma_table_dom(self.agents@, (ns@, id@));
        }
        None
    }

    pub(crate) fn find_activity(&self, ns: &NamespaceId, id: &ActivityId) -> (r: Option<usize>)
        requires
            self.wf(),
        ensures
            match r {
                Some(i) => i < self.activities@.len() && self.activities@[i as int].key() == (ns@, id@),
                None => !self@.activities.contains_key((ns@, id@)),
            },
    {
        let mut i: usize = 0;
        while i < self.activities.len()
            invariant
                i <= self.activities@.len(),
                forall|j: int| 0 <= j < i ==> self.activities@[j].key() != (ns@, id@),
            decreases self.activities@.len() - i,
        {
            if same_str(&self.activities[i].namespaceid.0, &ns.0) && same_str(&self.activities[i].id.0, &id.0) {
                return Some(i);
            }
            i = i + 1;
        }
        proof {
            lemma_table_dom(self.activities@, (ns@, id@));
        }
        None
    }

    pub(crate) fn find_entity(&self, ns: &NamespaceId, id: &EntityId) -> (r: Option<usize>)
        requires
            self.wf(),
        ensures
            match r {
                Some(i) => i < self.entities@.len() && self.entities@[i as int].key() == (ns@, id@),
                None => !self@.entities.contains_key((ns@, id@)),
            },
    {
        let mut i: usize = 0;
        while i < self.entities.len()
            invariant
                i <= self.entities@.len(),
                forall|j: int| 0 <= j < i ==> self.entities@[j].key() != (ns@, id@),
            decreases self.entities@.len() - i,
        {
            if same_str(&self.entities[i].namespaceid.0, &ns.0) && same_str(&self.entities[i].id.0, &id.0) {
                return Some(i);
            }
            i = i + 1;
        }
        proof {
            lemma_table_dom(self.entities@, (ns@, id@));
        }
        None
    }

    /// Creates the namespace `ns`, named after its identifier, unless it is present.
    pub fn namespace_context(&mut self, ns: &NamespaceId)
        requires
            old(self).wf(),
        ensures
            final(self).wf(),
            final(self)@ == with_namespace(old(self)@, ns@),
    {
        let found = self.find_namespace(ns);
        if let Some(i) = found {
            proof {
                lemma_table_index(self.namespaces@, i as int);
            }
        } else {
            let (name, uuid) = ns.decompose();
            let rec = Namespace { id: ns.duplicate(), uuid: uuid.to_owned(), name: name.to_owned() };
            insert_sorted(&mut self.namespaces, rec);
        }
    }

    fn ensure_agent(&mut self, ns: &NamespaceId, id: &AgentId, name: &str) -> (r: usize)
        requires
            old(self).wf(),
        ensures
            final(self).wf(),
            final(self)@ == with_agent(old(self)@, (ns@, id@), name@),
            r < final(self).agents@.len(),
            final(self).agents@[r as int].key() == (ns@, id@),
    {
        match self.find_agent(ns, id) {
            Some(i) => {
                proof {
                    lemma_table_index(self.agents@, i as int);
                }
                i
            },
            None => {
                let rec = Agent {
                    id: id.duplicate(),
                    namespaceid: ns.duplicate(),
                    name: name.to_owned(),
                    publickey: None,
                    prior_keys: Vec::new(),
                };
                proof {
                    assert(strs_view(rec.prior_keys@) =~= Seq::empty());
                }
                insert_sorted(&mut self.agents, rec);
                match self.find_agent(ns, id) {
                    Some(j) => j,
                    None => {
                        assert(false);
                        0
                    },
                }
            },
        }
    }

    fn ensure_activity(&mut self, ns: &NamespaceId, id: &ActivityId, name: &str) -> (r: usize)
        requires
            old(self).wf(),
        ensures
            final(self).wf(),
            final(self)@ == with_activity(old(self)@, (ns@, id@), name@),
            r < final(self).activities@.len(),
            final(self).activities@[r as int].key() == (ns@, id@),
    {
        match self.find_activity(ns, id) {
            Some(i) => {
                proof {
                    lemma_table_index(self.activities@, i as int);
                }
                i
            },
            None => {
                let rec = Activity {
                    id: id.duplicate(),
                    namespaceid: ns.duplicate(),
                    name: name.to_owned(),
                    started: None,
                    ended: None,
                };
                insert_sorted(&mut self.activities, rec);
                match self.find_activity(ns, id) {
                    Some(j) => j,
                    None => {
                        assert(false);
                        0
                    },
                }
            },
        }
    }

    fn ensure_entity(&mut self, ns: &NamespaceId, id: &EntityId, name: &str) -> (r: usize)
        requires
            old(self).wf(),
        ensures
            final(self).wf(),
            final(self)@ == with_entity(old(self)@, (ns@, id@), name@),
            r < final(self).entities@.len(),
            final(self).entities@[r as int].key() == (ns@, id@),
    {
        match self.find_entity(ns, id) {
            Some(i) => {
                proof {
                    lemma_table_index(self.entities@, i as int);
                }
                i
            },
            None => {
                let rec = Entity {
                    id: id.duplicate(),
                    namespaceid: ns.duplicate(),
                    name: name.to_owned(),
                    attachment: None,
                    prior_attachments: Vec::new(),
                };
                proof {
                    assert(attachments_view(rec.prior_attachments@) =~= Seq::empty());
                }
                insert_sorted(&mut self.entities, rec);
                match self.find_entity(ns, id) {
                    Some(j) => j,
                    None => {
                        assert(false);
                        0
                    },
                }
            },
        }
    }
}


fn contains_str(v: &Vec<String>, x: &String) -> (r: bool)
    ensures
        r == strs_view(v@).contains(x@),
{
    let mut i: usize = 0;
    while i < v.len()
        invariant
            i <= v@.len(),
            forall|j: int| 0 <= j < i ==> v@[j]@ != x@,
        decreases v@.len() - i,
    {
        if same_str(&v[i], x) {
            assert(strs_view(v@)[i as int] == x@);
            return true;
        }
        i = i + 1;
    }
    proof {
        if strs_view(v@).contains(x@) {
            let j = choose|j: int| 0 <= j < strs_view(v@).len() && strs_view(v@)[j] == x@;
            assert(v@[j]@ == x@);
        }
    }
    false
}

fn copy_attachment(a: &Attachment) -> (r: Attachment)
    ensures
        r@ == a@,
{
    Attachment {
        signer: a.signer.duplicate(),
        signature: a.signature.clone(),
        locator: opt_str_copy(&a.locator),
        signature_time: a.signature_time,
    }
}

fn same_attachment(a: &Attachment, b: &Attachment) -> (r: bool)
    ensures
        r == (a@ == b@),
{
    let same_locator = match (&a.locator, &b.locator) {
        (Some(x), Some(y)) => same_str(x, y),
        (None, None) => true,
        _ => false,
    };
    same_str(&a.signer.0, &b.signer.0) && same_str(&a.signature, &b.signature) && same_locator
        && a.signature_time == b.signature_time
}

fn contains_attachment(v: &Vec<Attachment>, x: &Attachment) -> (r: bool)
    ensures
        r == attachments_view(v@).contains(x@),
{
    let mut i: usize = 0;
    while i < v.len()
        invariant
            i <= v@.len(),
            forall|j: int| 0 <= j < i ==> v@[j]@ != x@,
        decreases v@.len() - i,
    {
        if same_attachment(&v[i], x) {
            assert(attachments_view(v@)[i as int] == x@);
            return true;
        }
        i = i + 1;
    }
    proof {
        if attachments_view(v@).contains(x@) {
            let j = choose|j: int|
                0 <= j < attachments_view(v@).len() && attachments_view(v@)[j] == x@;
            assert(v@[j]@ == x@);
        }
    }
    false
}

/// Adds the relation (ns, subject, object) unless it is present.
pub(crate) fn add_edge(edges: &mut Vec<Edge>, ns: &String, subject: &String, object: &String)
    requires
        keys_unique(old(edges)@),
        sorted(old(edges)@),
    ensures
        keys_unique(final(edges)@),
        sorted(final(edges)@),
        table(final(edges)@).dom() == table(old(edges)@).dom().insert((ns@, subject@, object@)),
{
    let ghost k = (ns@, subject@, object@);
    let mut i: usize = 0;
    while i < edges.len()
        invariant
            i <= edges@.len(),
            keys_unique(edges@),
            sorted(edges@),
            k == (ns@, subject@, object@),
            forall|j: int| 0 <= j < i ==> edges@[j].key() != k,
        decreases edges@.len() - i,
    {
        let e: &Edge = &edges[i];
        if same_str(&e.namespace, ns) && same_str(&e.subject, subject) && same_str(&e.object, object) {
            proof {
                lemma_table_index(edges@, i as int);
                assert(table(edges@).dom().insert(k) =~= table(edges@).dom());
            }
            return;
        }
        i = i + 1;
    }
    let rec = Edge { namespace: ns.clone(), subject: subject.clone(), object: object.clone() };
    let ghost before = edges@;
    proof {
        lemma_table_dom(edges@, k);
    }
    insert_sorted(edges, rec);
    assert(table(before).insert(k, ()).dom() =~= table(before).dom().insert(k));
}

impl ProvModel {
    fn set_started(&mut self, i: usize, t: Timestamp)
        requires
            old(self).wf(),
            i < old(self).activities@.len(),
        ensures
            final(self).wf(),
            final(self)@ == (ModelV {
                activities: old(self)@.activities.insert(
                    old(self).activities@[i as int].key(),
                    start_at(old(self)@.activities[old(self).activities@[i as int].key()], t),
                ),
                ..old(self)@
            }),
    {
        proof {
            lemma_table_index(self.activities@, i as int);
        }
        let ghost k = self.activities@[i as int].key();
        if self.activities[i].started.is_none() {
            let ghost before = self.activities@;
            self.activities[i].started = Some(t);
            proof {
                assert(self.activities@ =~= before.update(i as int, self.activities@[i as int]));
                lemma_table_update(before, i as int, self.activities@[i as int]);
                lemma_sorted_update(before, i as int, self.activities@[i as int]);
            }
        } else {
            proof {
                assert(self@.activities.insert(k, self@.activities[k]) =~= self@.activities);
            }
        }
    }

    fn set_ended(&mut self, i: usize, t: Timestamp)
        requires
            old(self).wf(),
            i < old(self).activities@.len(),
        ensures
            final(self).wf(),
            final(self)@ == (ModelV {
                activities: old(self)@.activities.insert(
                    old(self).activities@[i as int].key(),
                    end_at(old(self)@.activities[old(self).activities@[i as int].key()], t),
                ),
                ..old(self)@
            }),
    {
        proof {
            lemma_table_index(self.activities@, i as int);
        }
        let ghost k = self.activities@[i as int].key();
        if self.activities[i].ended.is_none() {
            let ghost before = self.activities@;
            self.activities[i].ended = Some(t);
            proof {
                assert(self.activities@ =~= before.update(i as int, self.activities@[i as int]));
                lemma_table_update(before, i as int, self.activities@[i as int]);
                lemma_sorted_update(before, i as int, self.activities@[i as int]);
            }
        } else {
            proof {
                assert(self@.activities.insert(k, self@.activities[k]) =~= self@.activities);
            }
        }
    }

    fn rotate_agent_key(&mut self, i: usize, key: &String)
        requires
            old(self).wf(),
            i < old(self).agents@.len(),
        ensures
            final(self).wf(),
            final(self)@ == (ModelV {
                agents: old(self)@.agents.insert(
                    old(self).agents@[i as int].key(),
                    rotate_key(old(self)@.agents[old(self).agents@[i as int].key()], key@),
                ),
                ..old(self)@
            }),
    {
        proof {
            lemma_table_index(self.agents@, i as int);
        }
        let ghost k = self.agents@[i as int].key();
        let ghost before = self.agents@;
        let cur = opt_str_copy(&self.agents[i].publickey);
        match cur {
            Some(c) => {
                if same_str(&c, key) {
                    proof {
                        assert(self@.agents.insert(k, self@.agents[k]) =~= self@.agents);
                    }
                    return;
                }
                if !contains_str(&self.agents[i].prior_keys, &c) {
                    let ghost p = self.agents@[i as int].prior_keys@;
                    self.agents[i].prior_keys.push(c);
                    proof {
                        assert(strs_view(p.push(c)) =~= strs_view(p).push(c@));
                    }
                }
                self.agents[i].publickey = Some(key.clone());
            },
            None => {
                self.agents[i].publickey = Some(key.clone());
            },
        }
        proof {
            assert(self.agents@ =~= before.update(i as int, self.agents@[i as int]));
            lemma_table_update(before, i as int, self.agents@[i as int]);
            lemma_sorted_update(before, i as int, self.agents@[i as int]);
        }
    }

    fn rotate_entity_attachment(&mut self, i: usize, att: Attachment)
        requires
            old(self).wf(),
            i < old(self).entities@.len(),
        ensures
            final(self).wf(),
            final(self)@ == (ModelV {
                entities: old(self)@.entities.insert(
                    old(self).entities@[i as int].key(),
                    rotate_attachment(old(self)@.entities[old(self).entities@[i as int].key()], att@),
                ),
                ..old(self)@
            }),
    {
        proof {
            lemma_table_index(self.entities@, i as int);
        }
        let ghost k = self.entities@[i as int].key();
        let ghost before = self.entities@;
        let cur = match &self.entities[i].attachment {
            Some(c) => Some(copy_attachment(c)),
            None => None,
        };
        match cur {
            Some(c) => {
                if same_attachment(&c, &att) {
                    proof {
                        assert(self@.entities.insert(k, self@.entities[k]) =~= self@.entities);
                    }
                    return;
                }
                if !contains_attachment(&self.entities[i].prior_attachments, &c) {
                    let ghost p = self.entities@[i as int].prior_attachments@;
                    self.entities[i].prior_attachments.push(c);
                    proof {
                        assert(attachments_view(p.push(c)) =~= attachments_view(p).push(c@));
                    }
                }
                self.entities[i].attachment = Some(att);
            },
            None => {
                self.entities[i].attachment = Some(att);
            },
        }
        proof {
            assert(self.entities@ =~= before.update(i as int, self.entities@[i as int]));
            lemma_table_update(before, i as int, self.entities@[i as int]);
            lemma_sorted_update(before, i as int, self.entities@[i as int]);
        }
    }
}


impl ProvModel {
    /// Applies one operation. The resources it names are created as stubs where absent;
    /// on an error the model is left as it was.
    pub fn apply(&mut self, tx: &ChronicleTransaction) -> (r: Result<(), ProcessorError>)
        requires
            old(self).wf(),
        ensures
            final(self).wf(),
            match r {
                Ok(_) => op_error(old(self)@, *tx) is None && final(self)@ == apply_op(
                    old(self)@,
                    *tx,
                ),
                Err(e) => op_error(old(self)@, *tx) == Some(e) && final(self)@ == old(self)@,
            },
    {
        match tx {
            ChronicleTransaction::CreateNamespace(o) => {
                match self.find_namespace(&o.id) {
                    Some(i) => {
                        proof {
                            lemma_table_index(self.namespaces@, i as int);
                        }
                    },
                    None => {
                        let rec = Namespace {
                            id: o.id.duplicate(),
                            uuid: o.uuid.clone(),
                            name: o.name.clone(),
                        };
                        insert_sorted(&mut self.namespaces, rec);
                    },
                }
                Ok(())
            },
            ChronicleTransaction::CreateAgent(o) => {
                self.namespace_context(&o.namespace);
                self.ensure_agent(&o.namespace, &o.id, o.name.as_str());
                Ok(())
            },
            ChronicleTransaction::RegisterKey(o) => {
                self.namespace_context(&o.namespace);
                let i = self.ensure_agent(&o.namespace, &o.id, o.name.as_str());
                self.rotate_agent_key(i, &o.publickey);
                Ok(())
            },
            ChronicleTransaction::CreateActivity(o) => {
                self.namespace_context(&o.namespace);
                self.ensure_activity(&o.namespace, &o.id, o.name.as_str());
                Ok(())
            },
            ChronicleTransaction::StartActivity(o) => {
                if let Some(i) = self.find_activity(&o.namespace, &o.id) {
                    proof {
                        lemma_table_index(self.activities@, i as int);
                    }
                    if self.activities[i].started.is_none() {
                        if let Some(e) = self.activities[i].ended {
                            if e.is_before(&o.time) {
                                return Err(ProcessorError::ConstraintViolation);
                            }
                        }
                    }
                }
                self.namespace_context(&o.namespace);
                let i = self.ensure_activity(&o.namespace, &o.id, o.id.decompose());
                self.set_started(i, o.time);
                self.ensure_agent(&o.namespace, &o.agent, o.agent.decompose());
                add_edge(&mut self.was_associated_with, &o.namespace.0, &o.id.0, &o.agent.0);
                Ok(())
            },
            ChronicleTransaction::EndActivity(o) => {
                if let Some(i) = self.find_activity(&o.namespace, &o.id) {
                    proof {
                        lemma_table_index(self.activities@, i as int);
                    }
                    if self.activities[i].ended.is_none() {
                        if let Some(s) = self.activities[i].started {
                            if o.time.is_before(&s) {
                                return Err(ProcessorError::ConstraintViolation);
                            }
                        }
                    }
                }
                self.namespace_context(&o.namespace);
                let i = self.ensure_activity(&o.namespace, &o.id, o.id.decompose());
                self.set_ended(i, o.time);
                self.ensure_agent(&o.namespace, &o.agent, o.agent.decompose());
                add_edge(&mut self.was_associated_with, &o.namespace.0, &o.id.0, &o.agent.0);
                Ok(())
            },
            ChronicleTransaction::ActivityUses(o) => {
                self.namespace_context(&o.namespace);
                self.ensure_activity(&o.namespace, &o.activity, o.activity.decompose());
                self.ensure_entity(&o.namespace, &o.id, o.id.decompose());
                add_edge(&mut self.used, &o.namespace.0, &o.activity.0, &o.id.0);
                Ok(())
            },
            ChronicleTransaction::GenerateEntity(o) => {
                self.namespace_context(&o.namespace);
                self.ensure_activity(&o.namespace, &o.activity, o.activity.decompose());
                self.ensure_entity(&o.namespace, &o.id, o.id.decompose());
                add_edge(&mut self.was_generated_by, &o.namespace.0, &o.id.0, &o.activity.0);
                Ok(())
            },
            ChronicleTransaction::EntityAttach(o) => {
                match self.find_agent(&o.namespace, &o.agent) {
                    Some(i) => {
                        proof {
                            lemma_table_index(self.agents@, i as int);
                        }
                        if self.agents[i].publickey.is_none() {
                            return Err(ProcessorError::UnknownSigner);
                        }
                    },
                    None => {
                        return Err(ProcessorError::UnknownSigner);
                    },
                }
                self.namespace_context(&o.namespace);
                let i = self.ensure_entity(&o.namespace, &o.id, o.id.decompose());
                let att = Attachment {
                    signer: o.agent.duplicate(),
                    signature: o.signature.clone(),
                    locator: opt_str_copy(&o.locator),
                    signature_time: o.signature_time,
                };
                self.rotate_entity_attachment(i, att);
                Ok(())
            },
        }
    }
}


impl ProvModel {
    /// Builds a model by applying `tx` in order to the empty model; the first operation
    /// that fails fails the whole batch.
    pub fn from_tx(tx: &Vec<ChronicleTransaction>) -> (r: Result<ProvModel, ProcessorError>)
        ensures
            match r {
                Ok(m) => m.wf() && run_ops(empty_model(), tx@) == Ok::<ModelV, ProcessorError>(m@),
                Err(e) => run_ops(empty_model(), tx@) == Err::<ModelV, ProcessorError>(e),
            },
    {
        let mut model = ProvModel::new();
        let mut i: usize = 0;
        while i < tx.len()
            invariant
                i <= tx@.len(),
                model.wf(),
                run_ops(empty_model(), tx@.take(i as int)) == Ok::<ModelV, ProcessorError>(model@),
            decreases tx@.len() - i,
        {
            assert(tx@.take(i + 1).drop_last() =~= tx@.take(i as int));
            match model.apply(&tx[i]) {
                Ok(_) => {},
                Err(e) => {
                    proof {
                        lemma_run_stops(empty_model(), tx@, (i + 1) as int);
                    }
                    return Err(e);
                },
            }
            i = i + 1;
        }
        assert(tx@.take(tx@.len() as int) =~= tx@);
        Ok(model)
    }
}

/// Once a prefix of a batch fails, the batch fails with the same error.
proof fn lemma_run_stops(m: ModelV, ops: Seq<ChronicleTransaction>, n: int)
    requires
        0 <= n <= ops.len(),
        run_ops(m, ops.take(n)) is Err,
    ensures
        run_ops(m, ops) == run_ops(m, ops.take(n)),
    decreases ops.len() - n,
{
    if n < ops.len() {
        assert(ops.take(n + 1).drop_last() =~= ops.take(n));
        lemma_run_stops(m, ops, n + 1);
    } else {
        assert(ops.take(n) =~= ops);
    }
}

/// Applying an operation a second time changes nothing: re-registering the current key or
/// re-attaching the current attachment is a no-op, and every other fact is a set member.
pub proof fn lemma_apply_idempotent(m: ModelV, op: ChronicleTransaction)
    requires
        op_error(m, op) is None,
    ensures
        op_error(apply_op(m, op), op) is None,
        apply_op(apply_op(m, op), op) == apply_op(m, op),
{
    let m1 = apply_op(m, op);
    assert(apply_op(m1, op) =~= m1);
}

/// Every relation joins resources present in its own namespace, and every resource
/// belongs to a namespace that is present.
pub open spec fn contained(m: ModelV) -> bool {
    &&& forall|e: EdgeKey| #[trigger]
        m.associated.contains(e) ==> m.activities.contains_key((e.0, e.1))
            && m.agents.contains_key((e.0, e.2))
    &&& forall|e: EdgeKey| #[trigger]
        m.used.contains(e) ==> m.activities.contains_key((e.0, e.1))
            && m.entities.contains_key((e.0, e.2))
    &&& forall|e: EdgeKey| #[trigger]
        m.generated.contains(e) ==> m.entities.contains_key((e.0, e.1))
            && m.activities.contains_key((e.0, e.2))
    &&& forall|k: Key| #[trigger] m.agents.contains_key(k) ==> m.namespaces.contains_key(k.0)
    &&& forall|k: Key| #[trigger] m.activities.contains_key(k) ==> m.namespaces.contains_key(k.0)
    &&& forall|k: Key| #[trigger] m.entities.contains_key(k) ==> m.namespaces.contains_key(k.0)
}

/// Applying an operation keeps every relation and resource inside its namespace.
pub proof fn lemma_apply_contained(m: ModelV, op: ChronicleTransaction)
    requires
        contained(m),
    ensures
        contained(apply_op(m, op)),
{
}

/// A batch applied to a model whose relations stay inside their namespaces yields such a model.
pub proof fn lemma_run_contained(m: ModelV, ops: Seq<ChronicleTransaction>)
    requires
        contained(m),
    ensures
        run_ops(m, ops) is Ok ==> contained(run_ops(m, ops)->Ok_0),
    decreases ops.len(),
{
    if ops.len() > 0 {
        lemma_run_contained(m, ops.drop_last());
        if let Ok(m1) = run_ops(m, ops.drop_last()) {
            lemma_apply_contained(m1, ops.last());
        }
    }
}

/// Every agent and entity of `m` is in `m2`, and each prior key and prior attachment
/// it had is still in its history there.
pub open spec fn history_kept(m: ModelV, m2: ModelV) -> bool {
    &&& forall|k: Key| #[trigger]
        m.agents.contains_key(k) ==> m2.agents.contains_key(k) && forall|x: Seq<char>|
            m.agents[k].prior.contains(x) ==> #[trigger] m2.agents[k].prior.contains(x)
    &&& forall|k: Key| #[trigger]
        m.entities.contains_key(k) ==> m2.entities.contains_key(k) && forall|x: AttachmentV|
            m.entities[k].prior.contains(x) ==> #[trigger] m2.entities[k].prior.contains(x)
}

proof fn lemma_push_keeps<A>(p: Seq<A>, c: A, x: A)
    requires
        p.contains(x),
    ensures
        p.push(c).contains(x),
{
    let i = choose|i: int| 0 <= i < p.len() && p[i] == x;
    assert(p.push(c)[i] == x);
}

/// Applying an operation never shrinks a history.
pub proof fn lemma_apply_keeps_history(m: ModelV, op: ChronicleTransaction)
    ensures
        history_kept(m, apply_op(m, op)),
{
    let m2 = apply_op(m, op);
    assert forall|k: Key| #[trigger] m.agents.contains_key(k) implies m2.agents.contains_key(k)
        && forall|x: Seq<char>|
        m.agents[k].prior.contains(x) ==> #[trigger] m2.agents[k].prior.contains(x) by {
        assert forall|x: Seq<char>| m.agents[k].prior.contains(x) implies #[trigger] m2.agents[k].prior.contains(x) by {
            let a = m.agents[k];
            if let ChronicleTransaction::RegisterKey(o) = op {
                if a.key is Some {
                    lemma_push_keeps(a.prior, a.key->0, x);
                }
            }
        }
    }
    assert forall|k: Key| #[trigger] m.entities.contains_key(k) implies m2.entities.contains_key(k)
        && forall|x: AttachmentV|
        m.entities[k].prior.contains(x) ==> #[trigger] m2.entities[k].prior.contains(x) by {
        assert forall|x: AttachmentV| m.entities[k].prior.contains(x) implies #[trigger] m2.entities[k].prior.contains(x) by {
            let e = m.entities[k];
            if let ChronicleTransaction::EntityAttach(o) = op {
                if e.attachment is Some {
                    lemma_push_keeps(e.prior, e.attachment->0, x);
                }
            }
        }
    }
}

/// Histories never shrink across a batch.
pub proof fn lemma_run_keeps_history(m: ModelV, ops: Seq<ChronicleTransaction>)
    ensures
        run_ops(m, ops) is Ok ==> history_kept(m, run_ops(m, ops)->Ok_0),
    decreases ops.len(),
{
    if ops.len() > 0 {
        lemma_run_keeps_history(m, ops.drop_last());
        if let Ok(m1) = run_ops(m, ops.drop_last()) {
            lemma_apply_keeps_history(m1, ops.last());
        }
    }
}

/// The agents that an operation names.
pub open spec fn agent_keys(op: ChronicleTransaction) -> Set<Key> {
    match op {
        ChronicleTransaction::CreateAgent(o) => set![(o.namespace@, o.id@)],
        ChronicleTransaction::RegisterKey(o) => set![(o.namespace@, o.id@)],
        ChronicleTransaction::StartActivity(o) => set![(o.namespace@, o.agent@)],
        ChronicleTransaction::EndActivity(o) => set![(o.namespace@, o.agent@)],
        _ => Set::empty(),
    }
}

/// The activities that an operation names.
pub open spec fn activity_keys(op: ChronicleTransaction) -> Set<Key> {
    match op {
        ChronicleTransaction::CreateActivity(o) => set![(o.namespace@, o.id@)],
        ChronicleTransaction::StartActivity(o) => set![(o.namespace@, o.id@)],
        ChronicleTransaction::EndActivity(o) => set![(o.namespace@, o.id@)],
        ChronicleTransaction::ActivityUses(o) => set![(o.namespace@, o.activity@)],
        ChronicleTransaction::GenerateEntity(o) => set![(o.namespace@, o.activity@)],
        _ => Set::empty(),
    }
}

/// The entities that an operation names.
pub open spec fn entity_keys(op: ChronicleTransaction) -> Set<Key> {
    match op {
        ChronicleTransaction::ActivityUses(o) => set![(o.namespace@, o.id@)],
        ChronicleTransaction::GenerateEntity(o) => set![(o.namespace@, o.id@)],
        ChronicleTransaction::EntityAttach(o) => set![(o.namespace@, o.id@)],
        _ => Set::empty(),
    }
}

/// The relations that an operation records, as (associated, used, generated).
pub open spec fn op_edges(op: ChronicleTransaction) -> (Set<EdgeKey>, Set<EdgeKey>, Set<EdgeKey>) {
    match op {
        ChronicleTransaction::StartActivity(o) => (
            set![(o.namespace@, o.id@, o.agent@)],
            Set::empty(),
            Set::empty(),
        ),
        ChronicleTransaction::EndActivity(o) => (
            set![(o.namespace@, o.id@, o.agent@)],
            Set::empty(),
            Set::empty(),
        ),
        ChronicleTransaction::ActivityUses(o) => (
            Set::empty(),
            set![(o.namespace@, o.activity@, o.id@)],
            Set::empty(),
        ),
        ChronicleTransaction::GenerateEntity(o) => (
            Set::empty(),
            Set::empty(),
            set![(o.namespace@, o.id@, o.activity@)],
        ),
        _ => (Set::empty(), Set::empty(), Set::empty()),
    }
}

/// What an operation adds to a model's resources and relations does not depend on the model.
pub proof fn lemma_apply_footprint(m: ModelV, op: ChronicleTransaction)
    ensures
        apply_op(m, op).namespaces.dom() == m.namespaces.dom().insert(op.namespace_of()),
        apply_op(m, op).agents.dom() == m.agents.dom().union(agent_keys(op)),
        apply_op(m, op).activities.dom() == m.activities.dom().union(activity_keys(op)),
        apply_op(m, op).entities.dom() == m.entities.dom().union(entity_keys(op)),
        apply_op(m, op).associated == m.associated.union(op_edges(op).0),
        apply_op(m, op).used == m.used.union(op_edges(op).1),
        apply_op(m, op).generated == m.generated.union(op_edges(op).2),
{
    let m2 = apply_op(m, op);
    assert(m2.namespaces.dom() =~= m.namespaces.dom().insert(op.namespace_of()));
    assert(m2.agents.dom() =~= m.agents.dom().union(agent_keys(op)));
    assert(m2.activities.dom() =~= m.activities.dom().union(activity_keys(op)));
    assert(m2.entities.dom() =~= m.entities.dom().union(entity_keys(op)));
    assert(m2.associated =~= m.associated.union(op_edges(op).0));
    assert(m2.used =~= m.used.union(op_edges(op).1));
    assert(m2.generated =~= m.generated.union(op_edges(op).2));
}

/// Two operations applied in either order leave the same resources present and the same
/// relations: orders differ only in fields where the first write is kept.
pub proof fn lemma_apply_order_independent(m: ModelV, a: ChronicleTransaction, b: ChronicleTransaction)
    ensures
        ({
            let ab = apply_op(apply_op(m, a), b);
            let ba = apply_op(apply_op(m, b), a);
            &&& ab.namespaces.dom() == ba.namespaces.dom()
            &&& ab.agents.dom() == ba.agents.dom()
            &&& ab.activities.dom() == ba.activities.dom()
            &&& ab.entities.dom() == ba.entities.dom()
            &&& ab.associated == ba.associated
            &&& ab.used == ba.used
            &&& ab.generated == ba.generated
        }),
{
    let ab = apply_op(apply_op(m, a), b);
    let ba = apply_op(apply_op(m, b), a);
    lemma_apply_footprint(m, a);
    lemma_apply_footprint(m, b);
    lemma_apply_footprint(apply_op(m, a), b);
    lemma_apply_footprint(apply_op(m, b), a);
    assert(ab.namespaces.dom() =~= ba.namespaces.dom());
    assert(ab.agents.dom() =~= ba.agents.dom());
    assert(ab.activities.dom() =~= ba.activities.dom());
    assert(ab.entities.dom() =~= ba.entities.dom());
    assert(ab.associated =~= ba.associated);
    assert(ab.used =~= ba.used);
    assert(ab.generated =~= ba.generated);
}


impl Namespace {
    pub fn new(id: NamespaceId, uuid: String, name: String) -> (r: Namespace)
        ensures
            r.key() == id@,
            r.value() == (NamespaceV { name: name@, uuid: uuid@ }),
    {
        Namespace { id, uuid, name }
    }
}

impl Agent {
    /// An agent with no key history.
    pub fn new(id: AgentId, namespaceid: NamespaceId, name: String, publickey: Option<String>) -> (r: Agent)
        ensures
            r.key() == (namespaceid@, id@),
            r.value() == (AgentV { name: name@, key: opt_view(publickey), prior: Seq::empty() }),
    {
        let r = Agent { id, namespaceid, name, publickey, prior_keys: Vec::new() };
        assert(strs_view(r.prior_keys@) =~= Seq::empty());
        r
    }
}

impl Activity {
    /// An activity that has neither started nor ended.
    pub fn new(id: ActivityId, ns: NamespaceId, name: &str) -> (r: Activity)
        ensures
            r.key() == (ns@, id@),
            r.value() == (ActivityV { name: name@, started: None, ended: None }),
    {
        Activity { id, namespaceid: ns, name: name.to_owned(), started: None, ended: None }
    }
}

impl Entity {
    /// An entity without attachments.
    pub fn unsigned(id: EntityId, namespaceid: &NamespaceId, name: &str) -> (r: Entity)
        ensures
            r.key() == (namespaceid@, id@),
            r.value() == (EntityV { name: name@, attachment: None, prior: Seq::empty() }),
    {
        let r = Entity {
            id,
            namespaceid: namespaceid.duplicate(),
            name: name.to_owned(),
            attachment: None,
            prior_attachments: Vec::new(),
        };
        assert(attachments_view(r.prior_attachments@) =~= Seq::empty());
        r
    }

    pub fn name(&self) -> (r: &str)
        ensures
            r@ == self.name@,
    {
        self.name.as_str()
    }

    pub fn id(&self) -> (r: &EntityId)
        ensures
            r@ == self.id@,
    {
        &self.id
    }

    pub fn namespaceid(&self) -> (r: &NamespaceId)
        ensures
            r@ == self.namespaceid@,
    {
        &self.namespaceid
    }
}

impl ProvModel {
    /// Records that `agent` is associated with `activity` in `ns`.
    pub fn associate_with(&mut self, ns: &NamespaceId, activity: &ActivityId, agent: &AgentId)
        requires
            old(self).wf(),
        ensures
            final(self).wf(),
            final(self)@ == (ModelV {
                associated: old(self)@.associated.insert((ns@, activity@, agent@)),
                ..old(self)@
            }),
    {
        add_edge(&mut self.was_associated_with, &ns.0, &activity.0, &agent.0);
    }

    /// Records that `entity` was generated by `activity` in `ns`.
    pub fn generate_by(&mut self, ns: &NamespaceId, entity: &EntityId, activity: &ActivityId)
        requires
            old(self).wf(),
        ensures
            final(self).wf(),
            final(self)@ == (ModelV {
                generated: old(self)@.generated.insert((ns@, entity@, activity@)),
                ..old(self)@
            }),
    {
        add_edge(&mut self.was_generated_by, &ns.0, &entity.0, &activity.0);
    }

    /// Records that `activity` used `entity` in `ns`.
    pub fn used(&mut self, ns: &NamespaceId, activity: &ActivityId, entity: &EntityId)
        requires
            old(self).wf(),
        ensures
            final(self).wf(),
            final(self)@ == (ModelV { used: old(self)@.used.insert((ns@, activity@, entity@)), ..old(self)@ }),
    {
        add_edge(&mut self.used, &ns.0, &activity.0, &entity.0);
    }
}

} // verus!
