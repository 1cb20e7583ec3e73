//! The linked-data nodes of a model: one flat object per resource, which is what the
//! state holds at the resource's address.
use vstd::prelude::*;
use vstd::string::*;
use vstd::utf8::*;
use crate::codec::{get_str, op_wf, sf};
use crate::ids::{ActivityId, AgentId, EntityId, NamespaceId};
use crate::json::{
    fields_wf, value_wf, chars_of, fields_view, lemma_parse_object_text, object_text, parse_object, push_object,
    read_object, strings_view, Field, JVal, JsonValue,
};
use crate::ledger::{address_seq, dependency_seq, StateOutput};
use crate::model::{
    activity_keys, add_edge, agent_keys, apply_op, attachments_view, entity_keys,
    empty_model, lemma_apply_footprint, op_error, run_ops, opt_attachment_view, opt_view, strs_view, with_namespace,
    Activity, ActivityV, Agent, AgentV, Attachment, AttachmentV, Edge, EdgeKey, Entity, EntityV,
    Key, ModelV, Namespace, NamespaceV, ProcessorError, ProvModel,
};
use crate::ops::ChronicleTransaction;
use crate::table::{insert_sorted, keys_unique, lemma_sorted_update, lemma_table_dom, lemma_table_index, lemma_table_update, sorted, table, Record};
use crate::order::{seqs_lt, str_lt};
use crate::time::{lemma_parse_time_text, parse_time, time_text, Timestamp};

verus! {

/// The objects of the relations in `edges` whose namespace is `ns` and subject is
/// `subject`, in order.
pub open spec fn objects_of(edges: Seq<Edge>, ns: Seq<char>, subject: Seq<char>) -> Seq<Seq<char>>
    decreases edges.len(),
{
    if edges.len() == 0 {
        Seq::empty()
    } else {
        let rest = objects_of(edges.drop_last(), ns, subject);
        let e = edges.last();
        if e.namespace@ == ns && e.subject@ == subject {
            rest.push(e.object@)
        } else {
            rest
        }
    }
}

pub open spec fn opt_list(o: Option<Seq<char>>) -> Seq<Seq<char>> {
    match o {
        Some(x) => seq![x],
        None => Seq::empty(),
    }
}

pub open spec fn time_list(o: Option<Timestamp>) -> Seq<Seq<char>> {
    match o {
        Some(t) => seq![time_text(t)],
        None => Seq::empty(),
    }
}

pub open spec fn attachment_fields(a: Attachment) -> Seq<(Seq<char>, JVal)> {
    let base = seq![
        sf("signer"@, a.signer@),
        sf("signature"@, a.signature@),
        sf("signedAtTime"@, time_text(a.signature_time)),
    ];
    match a.locator {
        Some(l) => base.push(sf("locator"@, l@)),
        None => base,
    }
}

pub open spec fn attachment_text(a: Attachment) -> Seq<char> {
    object_text(attachment_fields(a))
}

pub open spec fn namespace_node(n: Namespace) -> Seq<(Seq<char>, JVal)> {
    seq![
        sf("@type"@, "chronicle:Namespace"@),
        sf("@id"@, n.id@),
        sf("name"@, n.name@),
        sf("uuid"@, n.uuid@),
    ]
}

pub open spec fn agent_node(a: Agent) -> Seq<(Seq<char>, JVal)> {
    seq![
        sf("@type"@, "prov:Agent"@),
        sf("@id"@, a.id@),
        sf("namespace"@, a.namespaceid@),
        sf("name"@, a.name@),
        ("publicKey"@, JVal::List(opt_list(opt_view(a.publickey)))),
        ("priorKeys"@, JVal::List(strs_view(a.prior_keys@))),
    ]
}

pub open spec fn activity_node(m: ProvModel, a: Activity) -> Seq<(Seq<char>, JVal)> {
    seq![
        sf("@type"@, "prov:Activity"@),
        sf("@id"@, a.id@),
        sf("namespace"@, a.namespaceid@),
        sf("name"@, a.name@),
        ("startedAtTime"@, JVal::List(time_list(a.started))),
        ("endedAtTime"@, JVal::List(time_list(a.ended))),
        ("wasAssociatedWith"@, JVal::List(objects_of(m.was_associated_with@, a.namespaceid@, a.id@))),
        ("used"@, JVal::List(objects_of(m.used@, a.namespaceid@, a.id@))),
    ]
}

pub open spec fn entity_node(m: ProvModel, e: Entity) -> Seq<(Seq<char>, JVal)> {
    seq![
        sf("@type"@, "prov:Entity"@),
        sf("@id"@, e.id@),
        sf("namespace"@, e.namespaceid@),
        sf("name"@, e.name@),
        ("wasGeneratedBy"@, JVal::List(objects_of(m.was_generated_by@, e.namespaceid@, e.id@))),
        ("attachment"@, JVal::List(match e.attachment {
            Some(a) => seq![attachment_text(a)],
            None => Seq::empty(),
        })),
        ("priorAttachments"@, JVal::List(e.prior_attachments@.map_values(|a: Attachment| attachment_text(a)))),
    ]
}

/// The key `k` names a namespace: the namespace is its own resource.
pub open spec fn namespace_at(m: ProvModel, k: Key) -> bool {
    k.0 == k.1 && exists|i: int| 0 <= i < m.namespaces@.len() && m.namespaces@[i].key() == k.1
}

/// The text of the node of the resource `k`: a namespace whose key is its own address, else an agent, else an activity, else an entity
/// with that key; `None` when the model has none.
pub open spec fn resource_text(m: ProvModel, k: Key) -> Option<Seq<char>> {
    if namespace_at(m, k) {
        let i = choose|i: int| 0 <= i < m.namespaces@.len() && m.namespaces@[i].key() == k.1;
        Some(object_text(namespace_node(m.namespaces@[i])))
    } else if exists|i: int| 0 <= i < m.agents@.len() && m.agents@[i].key() == k {
        let i = choose|i: int| 0 <= i < m.agents@.len() && m.agents@[i].key() == k;
        Some(object_text(agent_node(m.agents@[i])))
    } else if exists|i: int| 0 <= i < m.activities@.len() && m.activities@[i].key() == k {
        let i = choose|i: int| 0 <= i < m.activities@.len() && m.activities@[i].key() == k;
        Some(object_text(activity_node(m, m.activities@[i])))
    } else if exists|i: int| 0 <= i < m.entities@.len() && m.entities@[i].key() == k {
        let i = choose|i: int| 0 <= i < m.entities@.len() && m.entities@[i].key() == k;
        Some(object_text(entity_node(m, m.entities@[i])))
    } else {
        None
    }
}

fn str_field(key: &str, value: &String) -> (r: Field)
    ensures
        r@ == sf(key@, value@),
{
    Field { key: key.to_owned(), value: JsonValue::Str(value.clone()) }
}

fn list_field(key: &str, l: Vec<String>) -> (r: Field)
    ensures
        r@ == (key@, JVal::List(strings_view(l@))),
{
    Field { key: key.to_owned(), value: JsonValue::List(l) }
}

fn collect_objects(edges: &Vec<Edge>, ns: &String, subject: &String) -> (r: Vec<String>)
    ensures
        strings_view(r@) == objects_of(edges@, ns@, subject@),
{
    let mut r: Vec<String> = Vec::new();
    let mut i: usize = 0;
    while i < edges.len()
        invariant
            i <= edges@.len(),
            strings_view(r@) == objects_of(edges@.take(i as int), ns@, subject@),
        decreases edges@.len() - i,
    {
        assert(edges@.take(i + 1).drop_last() =~= edges@.take(i as int));
        if edges[i].namespace == *ns && edges[i].subject == *subject {
            let ghost before = r@;
            r.push(edges[i].object.clone());
            assert(strings_view(r@) =~= strings_view(before).push(edges@[i as int].object@));
        }
        i = i + 1;
    }
    assert(edges@.take(edges@.len() as int) =~= edges@);
    r
}

fn opt_string_list(o: &Option<String>) -> (r: Vec<String>)
    ensures
        strings_view(r@) == opt_list(opt_view(*o)),
{
    let mut r: Vec<String> = Vec::new();
    if let Some(x) = o {
        r.push(x.clone());
    }
    assert(strings_view(r@) =~= opt_list(opt_view(*o)));
    r
}

fn time_string_list(o: &Option<Timestamp>) -> (r: Vec<String>)
    ensures
        strings_view(r@) == time_list(*o),
{
    let mut r: Vec<String> = Vec::new();
    if let Some(t) = o {
        r.push(t.to_text());
    }
    assert(strings_view(r@) =~= time_list(*o));
    r
}

fn copy_strings(v: &Vec<String>) -> (r: Vec<String>)
    ensures
        strings_view(r@) == strs_view(v@),
{
    let mut r: Vec<String> = Vec::new();
    let mut i: usize = 0;
    while i < v.len()
        invariant
            i <= v@.len(),
            strings_view(r@) == strs_view(v@.take(i as int)),
        decreases v@.len() - i,
    {
        let ghost before = r@;
        r.push(v[i].clone());
        assert(strings_view(r@) =~= strings_view(before).push(v@[i as int]@));
        assert(v@.take(i + 1) =~= v@.take(i as int).push(v@[i as int]));
        assert(strs_view(v@.take(i + 1)) =~= strs_view(v@.take(i as int)).push(v@[i as int]@));
        assert(strings_view(r@) =~= strs_view(v@.take(i + 1)));
        i = i + 1;
    }
    assert(v@.take(v@.len() as int) =~= v@);
    r
}

/// The text of the object of an attachment.
#[verifier::rlimit(100)]
pub fn attachment_to_json(a: &Attachment) -> (r: String)
    ensures
        r@ == attachment_text(*a),
{
    let mut fs: Vec<Field> = Vec::new();
    fs.push(str_field("signer", &a.signer.0));
    fs.push(str_field("signature", &a.signature));
    fs.push(Field { key: "signedAtTime".to_owned(), value: JsonValue::Str(a.signature_time.to_text()) });
    if let Some(l) = &a.locator {
        fs.push(str_field("locator", l));
    }
    assert(fields_view(fs@) =~= attachment_fields(*a));
    let mut r = String::new();
    push_object(&mut r, &fs);
    r
}

fn attachment_texts(v: &Vec<Attachment>) -> (r: Vec<String>)
    ensures
        strings_view(r@) == v@.map_values(|a: Attachment| attachment_text(a)),
{
    let mut r: Vec<String> = Vec::new();
    let mut i: usize = 0;
    while i < v.len()
        invariant
            i <= v@.len(),
            strings_view(r@) == v@.take(i as int).map_values(|a: Attachment| attachment_text(a)),
        decreases v@.len() - i,
    {
        let ghost before = r@;
        let t = attachment_to_json(&v[i]);
        r.push(t);
        assert(strings_view(r@) =~= strings_view(before).push(t@));
        assert(v@.take(i + 1) =~= v@.take(i as int).push(v@[i as int]));
        assert(v@.take(i + 1).map_values(|a: Attachment| attachment_text(a)) =~= v@.take(
            i as int,
        ).map_values(|a: Attachment| attachment_text(a)).push(attachment_text(v@[i as int])));
        assert(strings_view(r@) =~= v@.take(i + 1).map_values(|a: Attachment| attachment_text(a)));
        i = i + 1;
    }
    assert(v@.take(v@.len() as int) =~= v@);
    r
}

impl ProvModel {
    /// The node text of a namespace.
    pub fn namespace_to_json(&self, n: &Namespace) -> (r: String)
        ensures
            r@ == object_text(namespace_node(*n)),
    {
        let mut fs: Vec<Field> = Vec::new();
        fs.push(str_field("@type", &String::from_str("chronicle:Namespace")));
        fs.push(str_field("@id", &n.id.0));
        fs.push(str_field("name", &n.name));
        fs.push(str_field("uuid", &n.uuid));
        assert(fields_view(fs@) =~= namespace_node(*n));
        let mut r = String::new();
        push_object(&mut r, &fs);
        r
    }

    /// The node text of an agent.
    pub fn agent_to_json(&self, a: &Agent) -> (r: String)
        ensures
            r@ == object_text(agent_node(*a)),
    {
        let mut fs: Vec<Field> = Vec::new();
        fs.push(str_field("@type", &String::from_str("prov:Agent")));
        fs.push(str_field("@id", &a.id.0));
        fs.push(str_field("namespace", &a.namespaceid.0));
        fs.push(str_field("name", &a.name));
        fs.push(list_field("publicKey", opt_string_list(&a.publickey)));
        fs.push(list_field("priorKeys", copy_strings(&a.prior_keys)));
        assert(fields_view(fs@) =~= agent_node(*a));
        let mut r = String::new();
        push_object(&mut r, &fs);
        r
    }

    /// The node text of an activity, with the agents associated with it and the entities
    /// it used.
    pub fn activity_to_json(&self, a: &Activity) -> (r: String)
        ensures
            r@ == object_text(activity_node(*self, *a)),
    {
        let mut fs: Vec<Field> = Vec::new();
        fs.push(str_field("@type", &String::from_str("prov:Activity")));
        fs.push(str_field("@id", &a.id.0));
        fs.push(str_field("namespace", &a.namespaceid.0));
        fs.push(str_field("name", &a.name));
        fs.push(list_field("startedAtTime", time_string_list(&a.started)));
        fs.push(list_field("endedAtTime", time_string_list(&a.ended)));
        fs.push(list_field("wasAssociatedWith", collect_objects(&self.was_associated_with, &a.namespaceid.0, &a.id.0)));
        fs.push(list_field("used", collect_objects(&self.used, &a.namespaceid.0, &a.id.0)));
        assert(fields_view(fs@) =~= activity_node(*self, *a));
        let mut r = String::new();
        push_object(&mut r, &fs);
        r
    }

    /// The node text of an entity, with the activities that generated it and its
    /// attachments.
    pub fn entity_to_json(&self, e: &Entity) -> (r: String)
        ensures
            r@ == object_text(entity_node(*self, *e)),
    {
        let mut fs: Vec<Field> = Vec::new();
        fs.push(str_field("@type", &String::from_str("prov:Entity")));
        fs.push(str_field("@id", &e.id.0));
        fs.push(str_field("namespace", &e.namespaceid.0));
        fs.push(str_field("name", &e.name));
        fs.push(list_field("wasGeneratedBy", collect_objects(&self.was_generated_by, &e.namespaceid.0, &e.id.0)));
        let mut current: Vec<String> = Vec::new();
        if let Some(a) = &e.attachment {
            current.push(attachment_to_json(a));
        }
        assert(strings_view(current@) =~= match e.attachment {
            Some(a) => seq![attachment_text(a)],
            None => Seq::<Seq<char>>::empty(),
        });
        fs.push(list_field("attachment", current));
        fs.push(list_field("priorAttachments", attachment_texts(&e.prior_attachments)));
        assert(fields_view(fs@) =~= entity_node(*self, *e));
        let mut r = String::new();
        push_object(&mut r, &fs);
        r
    }

    /// The node text of the resource `(ns, id)`, if the model holds it.
    pub fn resource_to_json(&self, ns: &String, id: &String) -> (r: Option<String>)
        requires
            self.wf(),
        ensures
            match r {
                Some(t) => resource_text(*self, (ns@, id@)) == Some(t@),
                None => resource_text(*self, (ns@, id@)) is None,
            },
    {
        let ghost k = (ns@, id@);
        if *ns == *id {
            let nid = NamespaceId(ns.clone());
            if let Some(i) = self.find_namespace(&nid) {
                proof {
                    let j = choose|j: int| 0 <= j < self.namespaces@.len() && self.namespaces@[j].key() == k.1;
                    if j < i {
                        assert(self.namespaces@[j].key() != self.namespaces@[i as int].key());
                    } else if j > i {
                        assert(self.namespaces@[i as int].key() != self.namespaces@[j].key());
                    }
                }
                return Some(self.namespace_to_json(&self.namespaces[i]));
            }
            proof {
                lemma_table_dom(self.namespaces@, k.1);
            }
        }
        let mut i: usize = 0;
        while i < self.agents.len()
            invariant
                i <= self.agents@.len(),
                k == (ns@, id@),
                self.wf(),
                !namespace_at(*self, k),
                forall|j: int| 0 <= j < i ==> self.agents@[j].key() != k,
            decreases self.agents@.len() - i,
        {
            if self.agents[i].namespaceid.0 == *ns && self.agents[i].id.0 == *id {
                proof {
                    let j = choose|j: int| 0 <= j < self.agents@.len() && self.agents@[j].key() == k;
                    if j < i {
                        assert(self.agents@[j].key() != k);
                    } else if j > i {
                        assert(self.agents@[i as int].key() != self.agents@[j].key());
                    }
                }
                return Some(self.agent_to_json(&self.agents[i]));
            }
            i = i + 1;
        }
        let mut i: usize = 0;
        while i < self.activities.len()
            invariant
                i <= self.activities@.len(),
                k == (ns@, id@),
                self.wf(),
                !namespace_at(*self, k),
                forall|j: int| 0 <= j < i ==> self.activities@[j].key() != k,
                forall|j: int| 0 <= j < self.agents@.len() ==> self.agents@[j].key() != k,
            decreases self.activities@.len() - i,
        {
            if self.activities[i].namespaceid.0 == *ns && self.activities[i].id.0 == *id {
                proof {
                    let j = choose|j: int| 0 <= j < self.activities@.len() && self.activities@[j].key() == k;
                    if j < i {
                        assert(self.activities@[j].key() != self.activities@[i as int].key());
                    } else if j > i {
                        assert(self.activities@[i as int].key() != self.activities@[j].key());
                    }
                }
                return Some(self.activity_to_json(&self.activities[i]));
            }
            i = i + 1;
        }
        let mut i: usize = 0;
        while i < self.entities.len()
            invariant
                i <= self.entities@.len(),
                k == (ns@, id@),
                self.wf(),
                !namespace_at(*self, k),
                forall|j: int| 0 <= j < i ==> self.entities@[j].key() != k,
                forall|j: int| 0 <= j < self.agents@.len() ==> self.agents@[j].key() != k,
                forall|j: int| 0 <= j < self.activities@.len() ==> self.activities@[j].key() != k,
            decreases self.entities@.len() - i,
        {
            if self.entities[i].namespaceid.0 == *ns && self.entities[i].id.0 == *id {
                proof {
                    let j = choose|j: int| 0 <= j < self.entities@.len() && self.entities@[j].key() == k;
                    if j < i {
                        assert(self.entities@[j].key() != self.entities@[i as int].key());
                    } else if j > i {
                        assert(self.entities@[i as int].key() != self.entities@[j].key());
                    }
                }
                return Some(self.entity_to_json(&self.entities[i]));
            }
            i = i + 1;
        }
        None
    }
}


/// Whether the model holds a resource with key `k`.
pub open spec fn holds(m: ProvModel, k: Key) -> bool {
    (k.0 == k.1 && table(m.namespaces@).contains_key(k.1)) || table(m.agents@).contains_key(k) || table(m.activities@).contains_key(k) || table(
        m.entities@,
    ).contains_key(k)
}

proof fn lemma_holds_text(m: ProvModel, k: Key)
    requires
        holds(m, k),
    ensures
        resource_text(m, k) is Some,
{
    lemma_table_dom(m.namespaces@, k.1);
    lemma_table_dom(m.agents@, k);
    lemma_table_dom(m.activities@, k);
    lemma_table_dom(m.entities@, k);
}

impl ChronicleTransaction {
    /// Applies the operation to `model`, then writes the node of each resource the operation
    /// depends on, at that resource's address.
    pub fn process(&self, model: &mut ProvModel) -> (r: Result<Vec<StateOutput>, ProcessorError>)
        requires
            old(model).wf(),
        ensures
            final(model).wf(),
            match r {
                Ok(outs) => {
                    &&& op_error(old(model)@, *self) is None
                    &&& final(model)@ == apply_op(old(model)@, *self)
                    &&& outs@.len() == dependency_seq(*self).len()
                    &&& forall|i: int|
                        0 <= i < outs@.len() ==> {
                            let k = #[trigger] dependency_seq(*self)[i];
                            &&& (outs@[i].address.namespace@, outs@[i].address.resource@) == k
                            &&& resource_text(*final(model), k) is Some
                            &&& outs@[i].data@ == encode_utf8(resource_text(*final(model), k)->Some_0)
                        }
                },
                Err(e) => op_error(old(model)@, *self) == Some(e) && final(model)@ == old(model)@,
            },
    {
        match model.apply(self) {
            Err(e) => {
                return Err(e);
            },
            Ok(_) => {},
        }
        proof {
            lemma_apply_footprint(old(model)@, *self);
            assert forall|j: int| 0 <= j < dependency_seq(*self).len() implies holds(
                *model,
                #[trigger] dependency_seq(*self)[j],
            ) by {
                let k = dependency_seq(*self)[j];
                if !(self is CreateNamespace) {
                    assert(agent_keys(*self).contains(k) || activity_keys(*self).contains(k)
                        || entity_keys(*self).contains(k));
                    assert(model@.agents.dom().contains(k) || model@.activities.dom().contains(k)
                        || model@.entities.dom().contains(k));
                } else {
                    assert(model@.namespaces.dom().contains(k.1));
                }
            }
        }
        let deps = self.dependencies();
        let mut outs: Vec<StateOutput> = Vec::new();
        let mut i: usize = 0;
        while i < deps.len()
            invariant
                model.wf(),
                i <= deps@.len(),
                outs@.len() == i,
                address_seq(deps@) == dependency_seq(*self),
                model@ == apply_op(old(model)@, *self),
                forall|j: int| 0 <= j < deps@.len() ==> holds(*model, #[trigger] dependency_seq(*self)[j]),
                forall|j: int|
                    0 <= j < i ==> {
                        let k = #[trigger] dependency_seq(*self)[j];
                        &&& (outs@[j].address.namespace@, outs@[j].address.resource@) == k
                        &&& resource_text(*model, k) is Some
                        &&& outs@[j].data@ == encode_utf8(resource_text(*model, k)->Some_0)
                    },
            decreases deps@.len() - i,
        {
            let a = &deps[i];
            let ghost k = dependency_seq(*self)[i as int];
            assert(address_seq(deps@)[i as int] == k);
            proof {
                lemma_holds_text(*model, k);
            }
            match model.resource_to_json(&a.namespace, &a.resource) {
                Some(text) => {
                    let data = text.as_str().as_bytes_vec();
                    outs.push(StateOutput::new(a.clone_address(), data));
                },
                None => {
                    assert(false);
                },
            }
            i = i + 1;
        }
        Ok(outs)
    }
}


/// The string in field `i` when its key is `key`.
pub open spec fn str_at(fs: Seq<(Seq<char>, JVal)>, i: int, key: Seq<char>) -> Option<Seq<char>> {
    if 0 <= i < fs.len() && fs[i].0 == key && fs[i].1 is Str {
        Some(fs[i].1->Str_0)
    } else {
        None
    }
}

/// The list in field `i` when its key is `key`.
pub open spec fn list_at(fs: Seq<(Seq<char>, JVal)>, i: int, key: Seq<char>) -> Option<Seq<Seq<char>>> {
    if 0 <= i < fs.len() && fs[i].0 == key && fs[i].1 is List {
        Some(fs[i].1->List_0)
    } else {
        None
    }
}

/// A list of at most one element, read as an optional value.
pub open spec fn opt_of(l: Seq<Seq<char>>) -> Option<Option<Seq<char>>> {
    if l.len() == 0 {
        Some(None)
    } else if l.len() == 1 {
        Some(Some(l[0]))
    } else {
        None
    }
}

/// The agent that an agent node describes: its key and its value.
pub open spec fn agent_of_node(fs: Seq<(Seq<char>, JVal)>) -> Option<(Key, AgentV)> {
    if fs.len() == 6 && str_at(fs, 0, "@type"@) == Some("prov:Agent"@) && str_at(fs, 1, "@id"@) is Some
        && str_at(fs, 2, "namespace"@) is Some && str_at(fs, 3, "name"@) is Some && list_at(
        fs,
        4,
        "publicKey"@,
    ) is Some && opt_of(list_at(fs, 4, "publicKey"@)->Some_0) is Some && list_at(
        fs,
        5,
        "priorKeys"@,
    ) is Some {
        Some(
            (
                (str_at(fs, 2, "namespace"@)->Some_0, str_at(fs, 1, "@id"@)->Some_0),
                AgentV {
                    name: str_at(fs, 3, "name"@)->Some_0,
                    key: opt_of(list_at(fs, 4, "publicKey"@)->Some_0)->Some_0,
                    prior: list_at(fs, 5, "priorKeys"@)->Some_0,
                },
            ),
        )
    } else {
        None
    }
}

/// An agent's node reads back as that agent.
pub proof fn lemma_agent_node_round_trip(a: Agent)
    ensures
        agent_of_node(agent_node(a)) == Some((a.key(), a.value())),
{
    let fs = agent_node(a);
    assert(str_at(fs, 0, "@type"@) == Some("prov:Agent"@));
    assert(opt_of(opt_list(opt_view(a.publickey))) == Some(opt_view(a.publickey)));
}

/// Stores an agent read from a node, in its namespace.
pub open spec fn merge_agent(m: ModelV, k: Key, v: AgentV) -> ModelV {
    let m1 = with_namespace(m, k.0);
    ModelV { agents: m1.agents.insert(k, v), ..m1 }
}

fn get_list(fs: &Vec<Field>, i: usize, key: &str) -> (r: Option<Vec<String>>)
    ensures
        match r {
            Some(l) => list_at(fields_view(fs@), i as int, key@) == Some(strings_view(l@)),
            None => list_at(fields_view(fs@), i as int, key@) is None,
        },
{
    if i >= fs.len() {
        return None;
    }
    let k = key.to_owned();
    if fs[i].key != k {
        return None;
    }
    match &fs[i].value {
        JsonValue::List(l) => Some(l.clone()),
        JsonValue::Str(_) => None,
        JsonValue::Values(_) => None,
    }
}

impl ProvModel {
    fn set_agent(&mut self, rec: Agent)
        requires
            old(self).wf(),
        ensures
            final(self).wf(),
            final(self)@ == (ModelV { agents: old(self)@.agents.insert(rec.key(), rec.value()), ..old(self)@ }),
    {
        let ghost before = self.agents@;
        match self.find_agent(&rec.namespaceid, &rec.id) {
            Some(i) => {
                proof {
                    lemma_table_update(before, i as int, rec);
                    lemma_sorted_update(before, i as int, rec);
                }
                self.agents.set(i, rec);
            },
            None => {
                insert_sorted(&mut self.agents, rec);
            },
        }
    }

    /// Stores the agent that the node `fs` describes.
    pub fn apply_agent_node(&mut self, fs: &Vec<Field>) -> (r: Result<(), ProcessorError>)
        requires
            old(self).wf(),
        ensures
            final(self).wf(),
            match agent_of_node(fields_view(fs@)) {
                Some((k, v)) => r is Ok && final(self)@ == merge_agent(old(self)@, k, v),
                None => r == Err::<(), ProcessorError>(ProcessorError::MalformedDocument)
                    && final(self)@ == old(self)@,
            },
    {
        let ghost fv = fields_view(fs@);
        if fs.len() != 6 {
            return Err(ProcessorError::MalformedDocument);
        }
        let t = get_str(fs, 0, "@type");
        let id = get_str(fs, 1, "@id");
        let ns = get_str(fs, 2, "namespace");
        let name = get_str(fs, 3, "name");
        let key = get_list(fs, 4, "publicKey");
        let prior = get_list(fs, 5, "priorKeys");
        match (t, id, ns, name, key, prior) {
            (Some(t), Some(id), Some(ns), Some(name), Some(key), Some(prior)) => {
                if t != String::from_str("prov:Agent") || key.len() > 1 {
                    return Err(ProcessorError::MalformedDocument);
                }
                let publickey = if key.len() == 1 {
                    Some(key[0].clone())
                } else {
                    None
                };
                let rec = Agent {
                    id: AgentId(id),
                    namespaceid: NamespaceId(ns),
                    name,
                    publickey,
                    prior_keys: prior,
                };
                assert(strs_view(rec.prior_keys@) =~= strings_view(rec.prior_keys@));
                assert(str_at(fv, 1, "@id"@) == Some(rec.id@));
                self.namespace_context(&rec.namespaceid);
                self.set_agent(rec);
                Ok(())
            },
            _ => Err(ProcessorError::MalformedDocument),
        }
    }
}


/// A list of at most one instant text, read as an optional instant.
pub open spec fn time_of(l: Seq<Seq<char>>) -> Option<Option<Timestamp>> {
    if l.len() == 0 {
        Some(None)
    } else if l.len() == 1 && parse_time(l[0]) is Some {
        Some(Some(parse_time(l[0])->Some_0))
    } else {
        None
    }
}

/// The relations from `subject` in namespace `ns` to each of `objects`.
pub open spec fn list_edges(ns: Seq<char>, subject: Seq<char>, objects: Seq<Seq<char>>) -> Set<EdgeKey> {
    Set::new(|e: EdgeKey| e.0 == ns && e.1 == subject && objects.contains(e.2))
}

/// The activity that an activity node describes, with the agents associated with it and
/// the entities it used.
pub open spec fn activity_of_node(fs: Seq<(Seq<char>, JVal)>) -> Option<(Key, ActivityV, Seq<Seq<char>>, Seq<Seq<char>>)> {
    if fs.len() == 8 && str_at(fs, 0, "@type"@) == Some("prov:Activity"@) && str_at(fs, 1, "@id"@) is Some
        && str_at(fs, 2, "namespace"@) is Some && str_at(fs, 3, "name"@) is Some && list_at(
        fs,
        4,
        "startedAtTime"@,
    ) is Some && time_of(list_at(fs, 4, "startedAtTime"@)->Some_0) is Some && list_at(
        fs,
        5,
        "endedAtTime"@,
    ) is Some && time_of(list_at(fs, 5, "endedAtTime"@)->Some_0) is Some && list_at(
        fs,
        6,
        "wasAssociatedWith"@,
    ) is Some && list_at(fs, 7, "used"@) is Some {
        Some(
            (
                (str_at(fs, 2, "namespace"@)->Some_0, str_at(fs, 1, "@id"@)->Some_0),
                ActivityV {
                    name: str_at(fs, 3, "name"@)->Some_0,
                    started: time_of(list_at(fs, 4, "startedAtTime"@)->Some_0)->Some_0,
                    ended: time_of(list_at(fs, 5, "endedAtTime"@)->Some_0)->Some_0,
                },
                list_at(fs, 6, "wasAssociatedWith"@)->Some_0,
                list_at(fs, 7, "used"@)->Some_0,
            ),
        )
    } else {
        None
    }
}

proof fn lemma_time_list_round_trip(o: Option<Timestamp>)
    requires
        o is Some ==> o->Some_0.wf(),
    ensures
        time_of(time_list(o)) == Some(o),
{
    if let Some(t) = o {
        lemma_parse_time_text(t);
    }
}

/// An activity's node reads back as that activity and the objects of its relations.
pub proof fn lemma_activity_node_round_trip(m: ProvModel, a: Activity)
    requires
        a.started is Some ==> a.started->Some_0.wf(),
        a.ended is Some ==> a.ended->Some_0.wf(),
    ensures
        activity_of_node(activity_node(m, a)) == Some(
            (
                a.key(),
                a.value(),
                objects_of(m.was_associated_with@, a.namespaceid@, a.id@),
                objects_of(m.used@, a.namespaceid@, a.id@),
            ),
        ),
{
    lemma_time_list_round_trip(a.started);
    lemma_time_list_round_trip(a.ended);
    let fs = activity_node(m, a);
    assert(str_at(fs, 0, "@type"@) == Some("prov:Activity"@));
}

/// Stores an activity read from a node, in its namespace, with its relations.
pub open spec fn merge_activity(m: ModelV, k: Key, v: ActivityV, assoc: Seq<Seq<char>>, used: Seq<Seq<char>>) -> ModelV {
    let m1 = with_namespace(m, k.0);
    ModelV {
        activities: m1.activities.insert(k, v),
        associated: m1.associated.union(list_edges(k.0, k.1, assoc)),
        used: m1.used.union(list_edges(k.0, k.1, used)),
        ..m1
    }
}

fn add_edges(edges: &mut Vec<Edge>, ns: &String, subject: &String, objects: &Vec<String>)
    requires
        keys_unique(old(edges)@),
        sorted(old(edges)@),
    ensures
        keys_unique(final(edges)@),
        sorted(final(edges)@),
        table(final(edges)@).dom() == table(old(edges)@).dom().union(
            list_edges(ns@, subject@, strings_view(objects@)),
        ),
{
    let ghost start = table(edges@).dom();
    let mut i: usize = 0;
    while i < objects.len()
        invariant
            i <= objects@.len(),
            keys_unique(edges@),
            sorted(edges@),
            start == table(old(edges)@).dom(),
            table(edges@).dom() == start.union(list_edges(ns@, subject@, strings_view(objects@.take(i as int)))),
        decreases objects@.len() - i,
    {
        add_edge(edges, ns, subject, &objects[i]);
        proof {
            let before = strings_view(objects@.take(i as int));
            let after = strings_view(objects@.take(i + 1));
            assert(after =~= before.push(objects@[i as int]@));
            assert forall|e: EdgeKey| #[trigger] list_edges(ns@, subject@, after).contains(e) <==> list_edges(
                ns@,
                subject@,
                before,
            ).insert((ns@, subject@, objects@[i as int]@)).contains(e) by {
                if after.contains(e.2) && e.2 != objects@[i as int]@ {
                    let j = choose|j: int| 0 <= j < after.len() && after[j] == e.2;
                    assert(j < before.len());
                    assert(before[j] == e.2);
                }
                if before.contains(e.2) {
                    let j = choose|j: int| 0 <= j < before.len() && before[j] == e.2;
                    assert(after[j] == e.2);
                }
                if e.2 == objects@[i as int]@ {
                    assert(after[i as int] == e.2);
                }
            }
        }
        assert(table(edges@).dom() =~= start.union(list_edges(ns@, subject@, strings_view(objects@.take(i + 1)))));
        i = i + 1;
    }
    assert(objects@.take(objects@.len() as int) =~= objects@);
}

fn time_from_list(l: &Vec<String>) -> (r: Option<Option<Timestamp>>)
    ensures
        r == time_of(strings_view(l@)),
{
    if l.len() == 0 {
        Some(None)
    } else if l.len() == 1 {
        match Timestamp::parse(&chars_of(l[0].as_str())) {
            Some(t) => Some(Some(t)),
            None => None,
        }
    } else {
        None
    }
}

impl ProvModel {
    fn set_activity(&mut self, rec: Activity)
        requires
            old(self).wf(),
        ensures
            final(self).wf(),
            final(self)@ == (ModelV { activities: old(self)@.activities.insert(rec.key(), rec.value()), ..old(self)@ }),
    {
        let ghost before = self.activities@;
        match self.find_activity(&rec.namespaceid, &rec.id) {
            Some(i) => {
                proof {
                    lemma_table_update(before, i as int, rec);
                    lemma_sorted_update(before, i as int, rec);
                }
                self.activities.set(i, rec);
            },
            None => {
                insert_sorted(&mut self.activities, rec);
            },
        }
    }

    /// Stores the activity that the node `fs` describes, with its relations.
    pub fn apply_activity_node(&mut self, fs: &Vec<Field>) -> (r: Result<(), ProcessorError>)
        requires
            old(self).wf(),
        ensures
            final(self).wf(),
            match activity_of_node(fields_view(fs@)) {
                Some((k, v, assoc, used)) => r is Ok && final(self)@ == merge_activity(old(self)@, k, v, assoc, used),
                None => r == Err::<(), ProcessorError>(ProcessorError::MalformedDocument)
                    && final(self)@ == old(self)@,
            },
    {
        let ghost fv = fields_view(fs@);
        if fs.len() != 8 {
            return Err(ProcessorError::MalformedDocument);
        }
        let t = get_str(fs, 0, "@type");
        let id = get_str(fs, 1, "@id");
        let ns = get_str(fs, 2, "namespace");
        let name = get_str(fs, 3, "name");
        let started = get_list(fs, 4, "startedAtTime");
        let ended = get_list(fs, 5, "endedAtTime");
        let assoc = get_list(fs, 6, "wasAssociatedWith");
        let used = get_list(fs, 7, "used");
        match (t, id, ns, name, started, ended, assoc, used) {
            (Some(t), Some(id), Some(ns), Some(name), Some(started), Some(ended), Some(assoc), Some(used)) => {
                if t != String::from_str("prov:Activity") {
                    return Err(ProcessorError::MalformedDocument);
                }
                let started = match time_from_list(&started) {
                    Some(s) => s,
                    None => {
                        return Err(ProcessorError::MalformedDocument);
                    },
                };
                let ended = match time_from_list(&ended) {
                    Some(e) => e,
                    None => {
                        return Err(ProcessorError::MalformedDocument);
                    },
                };
                let rec = Activity {
                    id: ActivityId(id),
                    namespaceid: NamespaceId(ns),
                    name,
                    started,
                    ended,
                };
                self.namespace_context(&rec.namespaceid);
                add_edges(&mut self.was_associated_with, &rec.namespaceid.0, &rec.id.0, &assoc);
                add_edges(&mut self.used, &rec.namespaceid.0, &rec.id.0, &used);
                self.set_activity(rec);
                Ok(())
            },
            _ => Err(ProcessorError::MalformedDocument),
        }
    }
}


/// The attachment that the fields of an attachment object describe.
pub open spec fn attachment_of_fields(fs: Seq<(Seq<char>, JVal)>) -> Option<AttachmentV> {
    if (fs.len() == 3 || fs.len() == 4) && str_at(fs, 0, "signer"@) is Some && str_at(fs, 1, "signature"@)
        is Some && str_at(fs, 2, "signedAtTime"@) is Some && parse_time(
        str_at(fs, 2, "signedAtTime"@)->Some_0,
    ) is Some && (fs.len() == 4 ==> str_at(fs, 3, "locator"@) is Some) {
        Some(
            AttachmentV {
                signer: str_at(fs, 0, "signer"@)->Some_0,
                signature: str_at(fs, 1, "signature"@)->Some_0,
                locator: if fs.len() == 4 {
                    Some(str_at(fs, 3, "locator"@)->Some_0)
                } else {
                    None
                },
                time: parse_time(str_at(fs, 2, "signedAtTime"@)->Some_0)->Some_0,
            },
        )
    } else {
        None
    }
}

/// The attachment whose object text is `t`.
pub open spec fn attachment_of_text(t: Seq<char>) -> Option<AttachmentV> {
    match parse_object(t) {
        Some((fs, rest)) => if rest.len() == 0 {
            attachment_of_fields(fs)
        } else {
            None
        },
        None => None,
    }
}

/// The attachments whose object texts are `l`, when each of them is one.
pub open spec fn attachments_of(l: Seq<Seq<char>>) -> Option<Seq<AttachmentV>>
    decreases l.len(),
{
    if l.len() == 0 {
        Some(Seq::empty())
    } else {
        match (attachments_of(l.drop_last()), attachment_of_text(l.last())) {
            (Some(v), Some(a)) => Some(v.push(a)),
            _ => None,
        }
    }
}

/// The entity that an entity node describes, with the activities that generated it.
pub open spec fn entity_of_node(fs: Seq<(Seq<char>, JVal)>) -> Option<(Key, EntityV, Seq<Seq<char>>)> {
    if fs.len() == 7 && str_at(fs, 0, "@type"@) == Some("prov:Entity"@) && str_at(fs, 1, "@id"@) is Some
        && str_at(fs, 2, "namespace"@) is Some && str_at(fs, 3, "name"@) is Some && list_at(
        fs,
        4,
        "wasGeneratedBy"@,
    ) is Some && list_at(fs, 5, "attachment"@) is Some && list_at(fs, 5, "attachment"@)->Some_0.len()
        <= 1 && attachments_of(list_at(fs, 5, "attachment"@)->Some_0) is Some && list_at(
        fs,
        6,
        "priorAttachments"@,
    ) is Some && attachments_of(list_at(fs, 6, "priorAttachments"@)->Some_0) is Some {
        let current = attachments_of(list_at(fs, 5, "attachment"@)->Some_0)->Some_0;
        Some(
            (
                (str_at(fs, 2, "namespace"@)->Some_0, str_at(fs, 1, "@id"@)->Some_0),
                EntityV {
                    name: str_at(fs, 3, "name"@)->Some_0,
                    attachment: if current.len() == 1 {
                        Some(current[0])
                    } else {
                        None
                    },
                    prior: attachments_of(list_at(fs, 6, "priorAttachments"@)->Some_0)->Some_0,
                },
                list_at(fs, 4, "wasGeneratedBy"@)->Some_0,
            ),
        )
    } else {
        None
    }
}

/// Stores an entity read from a node, in its namespace, with its relations.
pub open spec fn merge_entity(m: ModelV, k: Key, v: EntityV, generated: Seq<Seq<char>>) -> ModelV {
    let m1 = with_namespace(m, k.0);
    ModelV {
        entities: m1.entities.insert(k, v),
        generated: m1.generated.union(list_edges(k.0, k.1, generated)),
        ..m1
    }
}

/// An attachment's object text reads back as that attachment.
#[verifier::rlimit(100)]
pub proof fn lemma_attachment_round_trip(a: Attachment)
    requires
        a.signature_time.wf(),
    ensures
        attachment_of_text(attachment_text(a)) == Some(a@),
{
    lemma_plain_fields(attachment_fields(a));
    lemma_parse_object_text(attachment_fields(a), Seq::empty());
    assert(attachment_text(a) + Seq::<char>::empty() =~= attachment_text(a));
    lemma_parse_time_text(a.signature_time);
}

proof fn lemma_attachments_round_trip(v: Seq<Attachment>)
    requires
        forall|i: int| 0 <= i < v.len() ==> (#[trigger] v[i]).signature_time.wf(),
    ensures
        attachments_of(v.map_values(|a: Attachment| attachment_text(a))) == Some(attachments_view(v)),
    decreases v.len(),
{
    if v.len() > 0 {
        let l = v.map_values(|a: Attachment| attachment_text(a));
        assert(l.drop_last() =~= v.drop_last().map_values(|a: Attachment| attachment_text(a)));
        lemma_attachments_round_trip(v.drop_last());
        lemma_attachment_round_trip(v.last());
        assert(attachments_view(v) =~= attachments_view(v.drop_last()).push(v.last()@));
    }
}

/// Every instant that an entity holds is valid.
pub open spec fn entity_times_wf(e: Entity) -> bool {
    &&& (e.attachment is Some ==> e.attachment->Some_0.signature_time.wf())
    &&& forall|i: int| 0 <= i < e.prior_attachments@.len() ==> (
    #[trigger] e.prior_attachments@[i]).signature_time.wf()
}

/// An entity's node reads back as that entity and the activities that generated it.
pub proof fn lemma_entity_node_round_trip(m: ProvModel, e: Entity)
    requires
        entity_times_wf(e),
    ensures
        entity_of_node(entity_node(m, e)) == Some(
            (e.key(), e.value(), objects_of(m.was_generated_by@, e.namespaceid@, e.id@)),
        ),
{
    let fs = entity_node(m, e);
    assert(str_at(fs, 0, "@type"@) == Some("prov:Entity"@));
    lemma_attachments_round_trip(e.prior_attachments@);
    if let Some(a) = e.attachment {
        let one = seq![a];
        assert(one.map_values(|x: Attachment| attachment_text(x)) =~= seq![attachment_text(a)]);
        lemma_attachments_round_trip(one);
        assert(attachments_view(one) =~= seq![a@]);
    } else {
        assert(attachments_of(Seq::<Seq<char>>::empty()) == Some(Seq::<AttachmentV>::empty()));
    }
}

fn attachment_from_text(t: &String) -> (r: Option<Attachment>)
    ensures
        match attachment_of_text(t@) {
            Some(v) => r is Some && r->Some_0@ == v,
            None => r is None,
        },
{
    let cs = chars_of(t.as_str());
    assert(cs@.subrange(0, cs@.len() as int) =~= t@);
    let (fs, end) = match read_object(&cs, 0) {
        Some(x) => x,
        None => {
            return None;
        },
    };
    if end != cs.len() {
        return None;
    }
    assert(cs@.subrange(end as int, cs@.len() as int).len() == 0);
    let n = fs.len();
    if n != 3 && n != 4 {
        return None;
    }
    let signer = match get_str(&fs, 0, "signer") {
        Some(x) => x,
        None => {
            return None;
        },
    };
    let signature = match get_str(&fs, 1, "signature") {
        Some(x) => x,
        None => {
            return None;
        },
    };
    let time_text = match get_str(&fs, 2, "signedAtTime") {
        Some(x) => x,
        None => {
            return None;
        },
    };
    let time = match Timestamp::parse(&chars_of(time_text.as_str())) {
        Some(x) => x,
        None => {
            return None;
        },
    };
    let locator = if n == 4 {
        match get_str(&fs, 3, "locator") {
            Some(x) => Some(x),
            None => {
                return None;
            },
        }
    } else {
        None
    };
    Some(Attachment { signer: AgentId(signer), signature, locator, signature_time: time })
}

fn attachments_from_list(l: &Vec<String>) -> (r: Option<Vec<Attachment>>)
    ensures
        match attachments_of(strings_view(l@)) {
            Some(v) => r is Some && attachments_view(r->Some_0@) == v,
            None => r is None,
        },
{
    let mut out: Vec<Attachment> = Vec::new();
    let mut i: usize = 0;
    while i < l.len()
        invariant
            i <= l@.len(),
            attachments_of(strings_view(l@.take(i as int))) == Some(attachments_view(out@)),
        decreases l@.len() - i,
    {
        let ghost next = strings_view(l@.take(i + 1));
        assert(next.drop_last() =~= strings_view(l@.take(i as int)));
        assert(next.last() == l@[i as int]@);
        match attachment_from_text(&l[i]) {
            Some(a) => {
                let ghost before = out@;
                out.push(a);
                assert(attachments_view(out@) =~= attachments_view(before).push(a@));
            },
            None => {
                proof {
                    lemma_attachments_none(strings_view(l@), i as int + 1);
                    assert(strings_view(l@).take(i + 1) =~= next);
                }
                return None;
            },
        }
        i = i + 1;
    }
    assert(l@.take(l@.len() as int) =~= l@);
    Some(out)
}

proof fn lemma_attachments_len(l: Seq<Seq<char>>)
    ensures
        attachments_of(l) is Some ==> attachments_of(l)->Some_0.len() == l.len(),
    decreases l.len(),
{
    if l.len() > 0 {
        lemma_attachments_len(l.drop_last());
    }
}

proof fn lemma_attachments_none(l: Seq<Seq<char>>, n: int)
    requires
        0 < n <= l.len(),
        attachments_of(l.take(n)) is None,
    ensures
        attachments_of(l) is None,
    decreases l.len() - n,
{
    if n < l.len() {
        assert(l.take(n + 1).drop_last() =~= l.take(n));
        lemma_attachments_none(l, n + 1);
    } else {
        assert(l.take(n) =~= l);
    }
}

impl ProvModel {
    fn set_entity(&mut self, rec: Entity)
        requires
            old(self).wf(),
        ensures
            final(self).wf(),
            final(self)@ == (ModelV { entities: old(self)@.entities.insert(rec.key(), rec.value()), ..old(self)@ }),
    {
        let ghost before = self.entities@;
        match self.find_entity(&rec.namespaceid, &rec.id) {
            Some(i) => {
                proof {
                    lemma_table_update(before, i as int, rec);
                    lemma_sorted_update(before, i as int, rec);
                }
                self.entities.set(i, rec);
            },
            None => {
                insert_sorted(&mut self.entities, rec);
            },
        }
    }

    /// Stores the entity that the node `fs` describes, with its relations.
    pub fn apply_entity_node(&mut self, fs: &Vec<Field>) -> (r: Result<(), ProcessorError>)
        requires
            old(self).wf(),
        ensures
            final(self).wf(),
            match entity_of_node(fields_view(fs@)) {
                Some((k, v, generated)) => r is Ok && final(self)@ == merge_entity(old(self)@, k, v, generated),
                None => r == Err::<(), ProcessorError>(ProcessorError::MalformedDocument)
                    && final(self)@ == old(self)@,
            },
    {
        if fs.len() != 7 {
            return Err(ProcessorError::MalformedDocument);
        }
        let t = get_str(fs, 0, "@type");
        let id = get_str(fs, 1, "@id");
        let ns = get_str(fs, 2, "namespace");
        let name = get_str(fs, 3, "name");
        let generated = get_list(fs, 4, "wasGeneratedBy");
        let current = get_list(fs, 5, "attachment");
        let prior = get_list(fs, 6, "priorAttachments");
        match (t, id, ns, name, generated, current, prior) {
            (Some(t), Some(id), Some(ns), Some(name), Some(generated), Some(current), Some(prior)) => {
                if t != String::from_str("prov:Entity") || current.len() > 1 {
                    return Err(ProcessorError::MalformedDocument);
                }
                let ghost texts = strings_view(current@);
                let mut current = match attachments_from_list(&current) {
                    Some(c) => c,
                    None => {
                        return Err(ProcessorError::MalformedDocument);
                    },
                };
                let prior = match attachments_from_list(&prior) {
                    Some(p) => p,
                    None => {
                        return Err(ProcessorError::MalformedDocument);
                    },
                };
                let ghost cv = attachments_view(current@);
                proof {
                    lemma_attachments_len(texts);
                }
                assert(cv.len() == current@.len());
                let attachment = if current.len() == 1 {
                    current.pop()
                } else {
                    None
                };
                assert(opt_attachment_view(attachment) == if cv.len() == 1 {
                    Some(cv[0])
                } else {
                    None::<AttachmentV>
                });
                let rec = Entity {
                    id: EntityId(id),
                    namespaceid: NamespaceId(ns),
                    name,
                    attachment,
                    prior_attachments: prior,
                };
                self.namespace_context(&rec.namespaceid);
                add_edges(&mut self.was_generated_by, &rec.namespaceid.0, &rec.id.0, &generated);
                self.set_entity(rec);
                Ok(())
            },
            _ => Err(ProcessorError::MalformedDocument),
        }
    }
}


/// The namespace that a namespace node describes.
pub open spec fn namespace_of_node(fs: Seq<(Seq<char>, JVal)>) -> Option<(Seq<char>, NamespaceV)> {
    if fs.len() == 4 && str_at(fs, 0, "@type"@) == Some("chronicle:Namespace"@) && str_at(fs, 1, "@id"@)
        is Some && str_at(fs, 2, "name"@) is Some && str_at(fs, 3, "uuid"@) is Some {
        Some(
            (
                str_at(fs, 1, "@id"@)->Some_0,
                NamespaceV { name: str_at(fs, 2, "name"@)->Some_0, uuid: str_at(fs, 3, "uuid"@)->Some_0 },
            ),
        )
    } else {
        None
    }
}

/// The fields of the node whose text is `t`.
pub open spec fn node_fields(t: Seq<char>) -> Option<Seq<(Seq<char>, JVal)>> {
    match parse_object(t) {
        Some((fs, rest)) => if rest.len() == 0 {
            Some(fs)
        } else {
            None
        },
        None => None,
    }
}

/// The model with the resource of the node `fs` stored in it; `None` when `fs` is not the
/// node of a resource.
pub open spec fn merge_node(m: ModelV, fs: Seq<(Seq<char>, JVal)>) -> Option<ModelV> {
    if str_at(fs, 0, "@type"@) == Some("chronicle:Namespace"@) {
        match namespace_of_node(fs) {
            Some((id, v)) => Some(ModelV { namespaces: m.namespaces.insert(id, v), ..m }),
            None => None,
        }
    } else if str_at(fs, 0, "@type"@) == Some("prov:Agent"@) {
        match agent_of_node(fs) {
            Some((k, v)) => Some(merge_agent(m, k, v)),
            None => None,
        }
    } else if str_at(fs, 0, "@type"@) == Some("prov:Activity"@) {
        match activity_of_node(fs) {
            Some((k, v, assoc, used)) => Some(merge_activity(m, k, v, assoc, used)),
            None => None,
        }
    } else if str_at(fs, 0, "@type"@) == Some("prov:Entity"@) {
        match entity_of_node(fs) {
            Some((k, v, generated)) => Some(merge_entity(m, k, v, generated)),
            None => None,
        }
    } else {
        None
    }
}

/// The text of a node reads back as its fields.
/// Fields holding no wrapped values are well formed.
proof fn lemma_plain_fields(fs: Seq<(Seq<char>, JVal)>)
    requires
        forall|i: int| 0 <= i < fs.len() ==> !(#[trigger] fs[i].1 is Values),
    ensures
        fields_wf(fs),
{
}

proof fn lemma_plain_node_text(fs: Seq<(Seq<char>, JVal)>)
    requires
        forall|i: int| 0 <= i < fs.len() ==> !(#[trigger] fs[i].1 is Values),
    ensures
        node_fields(object_text(fs)) == Some(fs),
{
    lemma_plain_fields(fs);
    lemma_node_fields_text(fs);
}

pub proof fn lemma_node_fields_text(fs: Seq<(Seq<char>, JVal)>)
    requires
        fields_wf(fs),
    ensures
        node_fields(object_text(fs)) == Some(fs),
{
    lemma_parse_object_text(fs, Seq::empty());
    assert(object_text(fs) + Seq::<char>::empty() =~= object_text(fs));
}

#[verifier::rlimit(100)]
proof fn lemma_agent_text(a: Agent)
    ensures
        node_fields(object_text(agent_node(a))) == Some(agent_node(a)),
{
    let fs = agent_node(a);
    assert forall|i: int| 0 <= i < fs.len() implies !(#[trigger] fs[i].1 is Values) by {}
    lemma_plain_node_text(fs);
}

#[verifier::rlimit(100)]
proof fn lemma_activity_text(m: ProvModel, a: Activity)
    ensures
        node_fields(object_text(activity_node(m, a))) == Some(activity_node(m, a)),
{
    let fs = activity_node(m, a);
    assert forall|i: int| 0 <= i < fs.len() implies !(#[trigger] fs[i].1 is Values) by {}
    lemma_plain_node_text(fs);
}

#[verifier::rlimit(100)]
proof fn lemma_entity_text(m: ProvModel, a: Entity)
    ensures
        node_fields(object_text(entity_node(m, a))) == Some(entity_node(m, a)),
{
    let fs = entity_node(m, a);
    assert forall|i: int| 0 <= i < fs.len() implies !(#[trigger] fs[i].1 is Values) by {}
    lemma_plain_node_text(fs);
}

/// What a model writes for a resource reads back as that resource: its key, its value and
/// the objects of the relations it is the subject of, for agents, activities and entities
/// whose instants are valid.
pub proof fn lemma_resource_round_trip(m: ProvModel, a: Agent, act: Activity, e: Entity)
    requires
        act.started is Some ==> act.started->Some_0.wf(),
        act.ended is Some ==> act.ended->Some_0.wf(),
        entity_times_wf(e),
    ensures
        node_fields(object_text(agent_node(a))) == Some(agent_node(a)),
        agent_of_node(agent_node(a)) == Some((a.key(), a.value())),
        node_fields(object_text(activity_node(m, act))) == Some(activity_node(m, act)),
        activity_of_node(activity_node(m, act)) == Some(
            (
                act.key(),
                act.value(),
                objects_of(m.was_associated_with@, act.namespaceid@, act.id@),
                objects_of(m.used@, act.namespaceid@, act.id@),
            ),
        ),
        node_fields(object_text(entity_node(m, e))) == Some(entity_node(m, e)),
        entity_of_node(entity_node(m, e)) == Some(
            (e.key(), e.value(), objects_of(m.was_generated_by@, e.namespaceid@, e.id@)),
        ),
{
    lemma_agent_text(a);
    lemma_activity_text(m, act);
    lemma_entity_text(m, e);
    lemma_agent_node_round_trip(a);
    lemma_activity_node_round_trip(m, act);
    lemma_entity_node_round_trip(m, e);
}

impl ProvModel {
    /// Stores the resource whose node text is `text`: a namespace, an agent, an activity
    /// or an entity, with the relations it is the subject of.
    pub fn apply_json_ld(&mut self, text: &str) -> (r: Result<(), ProcessorError>)
        requires
            old(self).wf(),
        ensures
            final(self).wf(),
            match node_fields(text@) {
                Some(fs) => match merge_node(old(self)@, fs) {
                    Some(m2) => r is Ok && final(self)@ == m2,
                    None => r == Err::<(), ProcessorError>(ProcessorError::MalformedDocument)
                        && final(self)@ == old(self)@,
                },
                None => r == Err::<(), ProcessorError>(ProcessorError::MalformedDocument)
                    && final(self)@ == old(self)@,
            },
    {
        let cs = chars_of(text);
        assert(cs@.subrange(0, cs@.len() as int) =~= text@);
        let (fs, end) = match read_object(&cs, 0) {
            Some(x) => x,
            None => {
                return Err(ProcessorError::MalformedDocument);
            },
        };
        if end != cs.len() {
            return Err(ProcessorError::MalformedDocument);
        }
        assert(cs@.subrange(end as int, cs@.len() as int).len() == 0);
        let t = match get_str(&fs, 0, "@type") {
            Some(t) => t,
            None => {
                return Err(ProcessorError::MalformedDocument);
            },
        };
        if t == String::from_str("chronicle:Namespace") {
            if fs.len() != 4 {
                return Err(ProcessorError::MalformedDocument);
            }
            match (get_str(&fs, 1, "@id"), get_str(&fs, 2, "name"), get_str(&fs, 3, "uuid")) {
                (Some(id), Some(name), Some(uuid)) => {
                    let rec = Namespace { id: NamespaceId(id), uuid, name };
                    self.set_namespace(rec);
                    Ok(())
                },
                _ => Err(ProcessorError::MalformedDocument),
            }
        } else if t == String::from_str("prov:Agent") {
            self.apply_agent_node(&fs)
        } else if t == String::from_str("prov:Activity") {
            self.apply_activity_node(&fs)
        } else if t == String::from_str("prov:Entity") {
            self.apply_entity_node(&fs)
        } else {
            Err(ProcessorError::MalformedDocument)
        }
    }

    fn set_namespace(&mut self, rec: Namespace)
        requires
            old(self).wf(),
        ensures
            final(self).wf(),
            final(self)@ == (ModelV { namespaces: old(self)@.namespaces.insert(rec.key(), rec.value()), ..old(self)@ }),
    {
        let ghost before = self.namespaces@;
        match self.find_namespace(&rec.id) {
            Some(i) => {
                proof {
                    lemma_table_update(before, i as int, rec);
                    lemma_sorted_update(before, i as int, rec);
                }
                self.namespaces.set(i, rec);
            },
            None => {
                insert_sorted(&mut self.namespaces, rec);
            },
        }
    }
}


/// The texts come in strictly ascending order.
pub open spec fn ascending(l: Seq<Seq<char>>) -> bool {
    forall|i: int, j: int| 0 <= i < j < l.len() ==> str_lt(l[i], l[j])
}

proof fn lemma_objects_from(edges: Seq<Edge>, ns: Seq<char>, subject: Seq<char>, x: Seq<char>)
    requires
        objects_of(edges, ns, subject).contains(x),
    ensures
        exists|j: int| 0 <= j < edges.len() && edges[j].namespace@ == ns && edges[j].subject@ == subject
            && edges[j].object@ == x,
    decreases edges.len(),
{
    let rest = objects_of(edges.drop_last(), ns, subject);
    if rest.contains(x) {
        lemma_objects_from(edges.drop_last(), ns, subject, x);
        let j = choose|j: int| 0 <= j < edges.drop_last().len() && edges.drop_last()[j].namespace@ == ns
            && edges.drop_last()[j].subject@ == subject && edges.drop_last()[j].object@ == x;
        assert(edges[j] == edges.drop_last()[j]);
    } else {
        let l = objects_of(edges, ns, subject);
        let i = choose|i: int| 0 <= i < l.len() && l[i] == x;
        assert(edges.len() > 0);
        assert(i == rest.len());
    }
}

/// In a sorted relation table, the objects of one subject come in ascending order.
pub proof fn lemma_objects_ascending(edges: Seq<Edge>, ns: Seq<char>, subject: Seq<char>)
    requires
        sorted(edges),
    ensures
        ascending(objects_of(edges, ns, subject)),
    decreases edges.len(),
{
    if edges.len() > 0 {
        let d = edges.drop_last();
        assert(sorted(d)) by {
            assert forall|i: int, j: int| 0 <= i < j < d.len() implies seqs_lt(d[i].rank(), d[j].rank()) by {
                assert(d[i] == edges[i] && d[j] == edges[j]);
            }
        }
        lemma_objects_ascending(d, ns, subject);
        let rest = objects_of(d, ns, subject);
        let e = edges.last();
        if e.namespace@ == ns && e.subject@ == subject {
            let l = rest.push(e.object@);
            assert forall|i: int, j: int| 0 <= i < j < l.len() implies str_lt(l[i], l[j]) by {
                if j == rest.len() {
                    assert(rest.contains(rest[i]));
                    lemma_objects_from(d, ns, subject, rest[i]);
                    let k = choose|k: int| 0 <= k < d.len() && d[k].namespace@ == ns && d[k].subject@ == subject
                        && d[k].object@ == rest[i];
                    assert(seqs_lt(edges[k].rank(), edges[edges.len() - 1].rank()));
                    let a = edges[k].rank();
                    let b = e.rank();
                    reveal_with_fuel(seqs_lt, 4);
                    assert(a[0] == b[0] && a[1] == b[1]);
                    assert(a.drop_first()[0] == b.drop_first()[0]);
                    assert(a.drop_first().drop_first() =~= seq![rest[i]]);
                    assert(b.drop_first().drop_first() =~= seq![e.object@]);
                    assert(a.drop_first().drop_first().drop_first() =~= Seq::<Seq<char>>::empty());
                    assert(b.drop_first().drop_first().drop_first() =~= Seq::<Seq<char>>::empty());
                } else {
                    assert(l[i] == rest[i] && l[j] == rest[j]);
                }
            }
        }
    }
}

/// The node texts of a model: its namespaces, agents, activities and entities, each kind
/// in table order, which well-formedness keeps ascending by identifier.
pub open spec fn model_texts(m: ProvModel) -> Seq<Seq<char>> {
    m.namespaces@.map_values(|n: Namespace| object_text(namespace_node(n))) + m.agents@.map_values(
        |a: Agent| object_text(agent_node(a)),
    ) + m.activities@.map_values(|a: Activity| object_text(activity_node(m, a)))
        + m.entities@.map_values(|e: Entity| object_text(entity_node(m, e)))
}

impl ProvModel {
    /// The linked-data nodes of the whole model, one text per resource: namespaces, agents,
    /// activities, entities, each kind in ascending order of identifier (then namespace),
    /// with the objects of each relation list in ascending order.
    #[verifier::rlimit(100)]
    pub fn to_json(&self) -> (r: Vec<String>)
        requires
            self.wf(),
        ensures
            strings_view(r@) == model_texts(*self),
            sorted(self.namespaces@),
            sorted(self.agents@),
            sorted(self.activities@),
            sorted(self.entities@),
            forall|ns: Seq<char>, subject: Seq<char>| ascending(#[trigger] objects_of(self.was_associated_with@, ns, subject)),
            forall|ns: Seq<char>, subject: Seq<char>| ascending(#[trigger] objects_of(self.used@, ns, subject)),
            forall|ns: Seq<char>, subject: Seq<char>| ascending(#[trigger] objects_of(self.was_generated_by@, ns, subject)),
    {
        let mut out: Vec<String> = Vec::new();
        let mut i: usize = 0;
        while i < self.namespaces.len()
            invariant
                i <= self.namespaces@.len(),
                strings_view(out@) == self.namespaces@.take(i as int).map_values(|n: Namespace| object_text(namespace_node(n))),
            decreases self.namespaces@.len() - i,
        {
            let ghost before = out@;
            let t = self.namespace_to_json(&self.namespaces[i]);
            out.push(t);
            assert(strings_view(out@) =~= strings_view(before).push(t@));
            assert(self.namespaces@.take(i + 1) =~= self.namespaces@.take(i as int).push(self.namespaces@[i as int]));
            assert(strings_view(out@) =~= self.namespaces@.take(i + 1).map_values(|n: Namespace| object_text(namespace_node(n))));
            i = i + 1;
        }
        assert(self.namespaces@.take(self.namespaces@.len() as int) =~= self.namespaces@);
        let ghost s1 = strings_view(out@);
        let mut i: usize = 0;
        while i < self.agents.len()
            invariant
                i <= self.agents@.len(),
                strings_view(out@) == s1 + self.agents@.take(i as int).map_values(|a: Agent| object_text(agent_node(a))),
            decreases self.agents@.len() - i,
        {
            let ghost before = out@;
            let t = self.agent_to_json(&self.agents[i]);
            out.push(t);
            assert(strings_view(out@) =~= strings_view(before).push(t@));
            assert(self.agents@.take(i + 1) =~= self.agents@.take(i as int).push(self.agents@[i as int]));
            assert(strings_view(out@) =~= s1 + self.agents@.take(i + 1).map_values(|a: Agent| object_text(agent_node(a))));
            i = i + 1;
        }
        assert(self.agents@.take(self.agents@.len() as int) =~= self.agents@);
        let ghost s2 = strings_view(out@);
        let mut i: usize = 0;
        while i < self.activities.len()
            invariant
                i <= self.activities@.len(),
                strings_view(out@) == s2 + self.activities@.take(i as int).map_values(|a: Activity| object_text(activity_node(*self, a))),
            decreases self.activities@.len() - i,
        {
            let ghost before = out@;
            let t = self.activity_to_json(&self.activities[i]);
            out.push(t);
            assert(strings_view(out@) =~= strings_view(before).push(t@));
            assert(self.activities@.take(i + 1) =~= self.activities@.take(i as int).push(self.activities@[i as int]));
            assert(strings_view(out@) =~= s2 + self.activities@.take(i + 1).map_values(|a: Activity| object_text(activity_node(*self, a))));
            i = i + 1;
        }
        assert(self.activities@.take(self.activities@.len() as int) =~= self.activities@);
        let ghost s3 = strings_view(out@);
        let mut i: usize = 0;
        while i < self.entities.len()
            invariant
                i <= self.entities@.len(),
                strings_view(out@) == s3 + self.entities@.take(i as int).map_values(|e: Entity| object_text(entity_node(*self, e))),
            decreases self.entities@.len() - i,
        {
            let ghost before = out@;
            let t = self.entity_to_json(&self.entities[i]);
            out.push(t);
            assert(strings_view(out@) =~= strings_view(before).push(t@));
            assert(self.entities@.take(i + 1) =~= self.entities@.take(i as int).push(self.entities@[i as int]));
            assert(strings_view(out@) =~= s3 + self.entities@.take(i + 1).map_values(|e: Entity| object_text(entity_node(*self, e))));
            i = i + 1;
        }
        assert(self.entities@.take(self.entities@.len() as int) =~= self.entities@);
        assert(strings_view(out@) =~= model_texts(*self));
        proof {
            assert forall|ns: Seq<char>, subject: Seq<char>| ascending(#[trigger] objects_of(self.was_associated_with@, ns, subject)) by {
                lemma_objects_ascending(self.was_associated_with@, ns, subject);
            }
            assert forall|ns: Seq<char>, subject: Seq<char>| ascending(#[trigger] objects_of(self.used@, ns, subject)) by {
                lemma_objects_ascending(self.used@, ns, subject);
            }
            assert forall|ns: Seq<char>, subject: Seq<char>| ascending(#[trigger] objects_of(self.was_generated_by@, ns, subject)) by {
                lemma_objects_ascending(self.was_generated_by@, ns, subject);
            }
        }
        out
    }
}


/// Every instant that the model holds is valid.
pub open spec fn times_wf(m: ModelV) -> bool {
    &&& forall|k: Key| #[trigger]
        m.activities.contains_key(k) ==> (m.activities[k].started is Some
            ==> m.activities[k].started->Some_0.wf()) && (m.activities[k].ended is Some
            ==> m.activities[k].ended->Some_0.wf())
    &&& forall|k: Key| #[trigger]
        m.entities.contains_key(k) ==> (m.entities[k].attachment is Some
            ==> m.entities[k].attachment->Some_0.time.wf()) && forall|i: int|
            0 <= i < m.entities[k].prior.len() ==> (#[trigger] m.entities[k].prior[i]).time.wf()
}

proof fn lemma_apply_times_wf(m: ModelV, op: ChronicleTransaction)
    requires
        times_wf(m),
        op_wf(op),
    ensures
        times_wf(apply_op(m, op)),
{
    let m2 = apply_op(m, op);
    assert forall|k: Key| #[trigger] m2.entities.contains_key(k) implies (m2.entities[k].attachment is Some
        ==> m2.entities[k].attachment->Some_0.time.wf()) && forall|i: int|
        0 <= i < m2.entities[k].prior.len() ==> (#[trigger] m2.entities[k].prior[i]).time.wf() by {
        if m.entities.contains_key(k) {
            let e = m.entities[k];
            assert forall|i: int| 0 <= i < m2.entities[k].prior.len() implies (#[trigger] m2.entities[k].prior[i]).time.wf() by {
                if i < e.prior.len() {
                    assert(e.prior.push(e.attachment->Some_0)[i] == e.prior[i]);
                }
            }
        }
    }
}

/// Every model that valid operations reach from the empty model holds valid instants only.
pub proof fn lemma_run_times_wf(ops: Seq<ChronicleTransaction>)
    requires
        forall|i: int| 0 <= i < ops.len() ==> op_wf(#[trigger] ops[i]),
    ensures
        run_ops(empty_model(), ops) is Ok ==> times_wf(run_ops(empty_model(), ops)->Ok_0),
    decreases ops.len(),
{
    if ops.len() > 0 {
        lemma_run_times_wf(ops.drop_last());
        if let Ok(m1) = run_ops(empty_model(), ops.drop_last()) {
            assert(op_wf(ops[ops.len() - 1]));
            lemma_apply_times_wf(m1, ops.last());
        }
    }
}

/// In a model that valid operations reach, each activity's and entity's node reads back
/// as that resource and the objects of its relations; so does each agent's.
pub proof fn lemma_reachable_round_trip(ops: Seq<ChronicleTransaction>, m: ProvModel)
    requires
        forall|i: int| 0 <= i < ops.len() ==> op_wf(#[trigger] ops[i]),
        m.wf(),
        run_ops(empty_model(), ops) == Ok::<ModelV, ProcessorError>(m@),
    ensures
        forall|i: int| 0 <= i < m.agents@.len() ==> agent_of_node(#[trigger] agent_node(m.agents@[i]))
            == Some((m.agents@[i].key(), m.agents@[i].value())),
        forall|i: int| 0 <= i < m.activities@.len() ==> activity_of_node(
            #[trigger] activity_node(m, m.activities@[i]),
        ) == Some(
            (
                m.activities@[i].key(),
                m.activities@[i].value(),
                objects_of(m.was_associated_with@, m.activities@[i].namespaceid@, m.activities@[i].id@),
                objects_of(m.used@, m.activities@[i].namespaceid@, m.activities@[i].id@),
            ),
        ),
        forall|i: int| 0 <= i < m.entities@.len() ==> entity_of_node(#[trigger] entity_node(m, m.entities@[i]))
            == Some(
            (
                m.entities@[i].key(),
                m.entities@[i].value(),
                objects_of(m.was_generated_by@, m.entities@[i].namespaceid@, m.entities@[i].id@),
            ),
        ),
{
    lemma_run_times_wf(ops);
    assert forall|i: int| 0 <= i < m.agents@.len() implies agent_of_node(#[trigger] agent_node(m.agents@[i]))
        == Some((m.agents@[i].key(), m.agents@[i].value())) by {
        lemma_agent_node_round_trip(m.agents@[i]);
    }
    lemma_activities_round_trip(m);
    lemma_entities_round_trip(m);
}

proof fn lemma_activities_round_trip(m: ProvModel)
    requires
        m.wf(),
        times_wf(m@),
    ensures
        forall|i: int| 0 <= i < m.activities@.len() ==> activity_of_node(
            #[trigger] activity_node(m, m.activities@[i]),
        ) == Some(
            (
                m.activities@[i].key(),
                m.activities@[i].value(),
                objects_of(m.was_associated_with@, m.activities@[i].namespaceid@, m.activities@[i].id@),
                objects_of(m.used@, m.activities@[i].namespaceid@, m.activities@[i].id@),
            ),
        ),
{
    assert forall|i: int| 0 <= i < m.activities@.len() implies activity_of_node(
        #[trigger] activity_node(m, m.activities@[i]),
    ) == Some(
        (
            m.activities@[i].key(),
            m.activities@[i].value(),
            objects_of(m.was_associated_with@, m.activities@[i].namespaceid@, m.activities@[i].id@),
            objects_of(m.used@, m.activities@[i].namespaceid@, m.activities@[i].id@),
        ),
    ) by {
        lemma_table_index(m.activities@, i);
        lemma_activity_node_round_trip(m, m.activities@[i]);
    }
}

proof fn lemma_entities_round_trip(m: ProvModel)
    requires
        m.wf(),
        times_wf(m@),
    ensures
        forall|i: int| 0 <= i < m.entities@.len() ==> entity_of_node(#[trigger] entity_node(m, m.entities@[i]))
            == Some(
            (
                m.entities@[i].key(),
                m.entities@[i].value(),
                objects_of(m.was_generated_by@, m.entities@[i].namespaceid@, m.entities@[i].id@),
            ),
        ),
{
    assert forall|i: int| 0 <= i < m.entities@.len() implies entity_of_node(#[trigger] entity_node(m, m.entities@[i]))
        == Some(
        (
            m.entities@[i].key(),
            m.entities@[i].value(),
            objects_of(m.was_generated_by@, m.entities@[i].namespaceid@, m.entities@[i].id@),
        ),
    ) by {
        lemma_entity_times(m, i);
        lemma_entity_node_round_trip(m, m.entities@[i]);
    }
}

proof fn lemma_entity_times(m: ProvModel, i: int)
    requires
        m.wf(),
        times_wf(m@),
        0 <= i < m.entities@.len(),
    ensures
        entity_times_wf(m.entities@[i]),
{
    let e = m.entities@[i];
    lemma_table_index(m.entities@, i);
    let v = m@.entities[e.key()];
    assert(v == e.value());
    assert forall|j: int| 0 <= j < e.prior_attachments@.len() implies (
    #[trigger] e.prior_attachments@[j]).signature_time.wf() by {
        assert(v.prior[j] == e.prior_attachments@[j]@);
    }
    if e.attachment is Some {
        assert(v.attachment == Some(e.attachment->Some_0@));
    }
}

} // verus!
