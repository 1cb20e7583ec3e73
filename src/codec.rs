//! The linked-data form of operations: each operation is a flat object whose terms
//! come from one fixed vocabulary.
use vstd::prelude::*;
use crate::ids::{canonical, colon_free, has_no_colon, iri_of, lemma_iri_segment, lemma_ns_segments, ns_canonical, ns_iri, segment, ActivityId, AgentId, EntityId, NamespaceId};
use crate::json::{
    fields_view, fields_wf, lemma_parse_object_text, object_text, parse_object, push_object,
    read_object, strings_view, suffix, value_wf, Field, JVal, JsonValue, chars_of,
};
use crate::ops::{
    ActivityUses, ChronicleTransaction, CreateActivity, CreateAgent, CreateNamespace, EndActivity,
    EntityAttach, GenerateEntity, RegisterKey, StartActivity,
};
use crate::ledger::dependency_seq;
use crate::model::{apply_op, op_error, opt_view, ModelV};
use crate::time::{lemma_parse_time_text, lemma_time_text_parse, time_text, Timestamp};

verus! {

pub open spec fn sf(k: Seq<char>, v: Seq<char>) -> (Seq<char>, JVal) {
    (k, JVal::Str(v))
}

/// A property with one value, written `[{"@value": v}]`.
pub open spec fn sv(k: Seq<char>, v: Seq<char>) -> (Seq<char>, JVal) {
    (k, JVal::Values(seq![v]))
}

/// Every identifier the operation holds is built from its names, and every instant it
/// holds is valid.
pub open spec fn op_wf(op: ChronicleTransaction) -> bool {
    match op {
        ChronicleTransaction::CreateNamespace(o) => colon_free(o.name@) && colon_free(o.uuid@)
            && o.id@ == ns_iri(o.name@, o.uuid@),
        ChronicleTransaction::CreateAgent(o) => ns_canonical(o.namespace@) && colon_free(o.name@)
            && o.id@ == iri_of("agent"@, o.name@),
        ChronicleTransaction::RegisterKey(o) => ns_canonical(o.namespace@) && colon_free(o.name@)
            && o.id@ == iri_of("agent"@, o.name@),
        ChronicleTransaction::CreateActivity(o) => ns_canonical(o.namespace@) && colon_free(o.name@)
            && o.id@ == iri_of("activity"@, o.name@),
        ChronicleTransaction::StartActivity(o) => ns_canonical(o.namespace@) && canonical("activity"@, o.id@)
            && canonical("agent"@, o.agent@) && o.time.wf(),
        ChronicleTransaction::EndActivity(o) => ns_canonical(o.namespace@) && canonical("activity"@, o.id@)
            && canonical("agent"@, o.agent@) && o.time.wf(),
        ChronicleTransaction::ActivityUses(o) => ns_canonical(o.namespace@) && canonical("entity"@, o.id@)
            && canonical("activity"@, o.activity@),
        ChronicleTransaction::GenerateEntity(o) => ns_canonical(o.namespace@) && canonical("entity"@, o.id@)
            && canonical("activity"@, o.activity@),
        ChronicleTransaction::EntityAttach(o) => ns_canonical(o.namespace@) && canonical("entity"@, o.id@)
            && canonical("agent"@, o.agent@) && o.signature_time.wf(),
    }
}

/// The two properties that name a namespace.
pub open spec fn ns_props(ns: Seq<char>) -> Seq<(Seq<char>, JVal)> {
    seq![sv("http://blockchaintp.com/chronicleoperations/ns#NamespaceName"@, segment(ns, 2)), sv("http://blockchaintp.com/chronicleoperations/ns#NamespaceUuid"@, segment(ns, 3))]
}

/// The node of an operation: a blank node typed by the operation, with one property per
/// value of the operations vocabulary.
pub open spec fn op_fields(op: ChronicleTransaction) -> Seq<(Seq<char>, JVal)> {
    let head = |t: Seq<char>| seq![sf("@id"@, "_:n1"@), sf("@type"@, t)];
    match op {
        ChronicleTransaction::CreateNamespace(o) => head("http://blockchaintp.com/chronicleoperations/ns#CreateNamespace"@)
            + seq![sv("http://blockchaintp.com/chronicleoperations/ns#NamespaceName"@, o.name@), sv("http://blockchaintp.com/chronicleoperations/ns#NamespaceUuid"@, o.uuid@)],
        ChronicleTransaction::CreateAgent(o) => head("http://blockchaintp.com/chronicleoperations/ns#CreateAgent"@)
            + seq![sv("http://blockchaintp.com/chronicleoperations/ns#AgentName"@, o.name@)] + ns_props(o.namespace@),
        ChronicleTransaction::RegisterKey(o) => head("http://blockchaintp.com/chronicleoperations/ns#RegisterKey"@)
            + seq![sv("http://blockchaintp.com/chronicleoperations/ns#AgentName"@, o.name@)] + ns_props(o.namespace@)
            + seq![sv("http://blockchaintp.com/chronicleoperations/ns#PublicKey"@, o.publickey@)],
        ChronicleTransaction::CreateActivity(o) => head("http://blockchaintp.com/chronicleoperations/ns#CreateActivity"@)
            + seq![sv("http://blockchaintp.com/chronicleoperations/ns#ActivityName"@, o.name@)] + ns_props(o.namespace@),
        ChronicleTransaction::StartActivity(o) => head("http://blockchaintp.com/chronicleoperations/ns#StartActivity"@)
            + seq![sv("http://blockchaintp.com/chronicleoperations/ns#ActivityName"@, segment(o.id@, 2)), sv("http://blockchaintp.com/chronicleoperations/ns#AgentName"@, segment(o.agent@, 2))]
            + ns_props(o.namespace@) + seq![sv("http://blockchaintp.com/chronicleoperations/ns#StartActivityTime"@, time_text(o.time))],
        ChronicleTransaction::EndActivity(o) => head("http://blockchaintp.com/chronicleoperations/ns#EndActivity"@)
            + seq![sv("http://blockchaintp.com/chronicleoperations/ns#ActivityName"@, segment(o.id@, 2)), sv("http://blockchaintp.com/chronicleoperations/ns#AgentName"@, segment(o.agent@, 2))]
            + ns_props(o.namespace@) + seq![sv("http://blockchaintp.com/chronicleoperations/ns#EndActivityTime"@, time_text(o.time))],
        ChronicleTransaction::ActivityUses(o) => head("http://blockchaintp.com/chronicleoperations/ns#ActivityUses"@)
            + seq![sv("http://blockchaintp.com/chronicleoperations/ns#ActivityName"@, segment(o.activity@, 2)), sv("http://blockchaintp.com/chronicleoperations/ns#EntityName"@, segment(o.id@, 2))]
            + ns_props(o.namespace@),
        ChronicleTransaction::GenerateEntity(o) => head("http://blockchaintp.com/chronicleoperations/ns#GenerateEntity"@)
            + seq![sv("http://blockchaintp.com/chronicleoperations/ns#ActivityName"@, segment(o.activity@, 2)), sv("http://blockchaintp.com/chronicleoperations/ns#EntityName"@, segment(o.id@, 2))]
            + ns_props(o.namespace@),
        ChronicleTransaction::EntityAttach(o) => {
            let base = head("http://blockchaintp.com/chronicleoperations/ns#EntityAttach"@)
                + seq![sv("http://blockchaintp.com/chronicleoperations/ns#AgentName"@, segment(o.agent@, 2)), sv("http://blockchaintp.com/chronicleoperations/ns#EntityName"@, segment(o.id@, 2))]
                + ns_props(o.namespace@) + seq![
                sv("http://blockchaintp.com/chronicleoperations/ns#Signature"@, o.signature@),
                sv("http://blockchaintp.com/chronicleoperations/ns#SignatureTime"@, time_text(o.signature_time)),
            ];
            match o.locator {
                Some(l) => base.push(sv("http://blockchaintp.com/chronicleoperations/ns#Locator"@, l@)),
                None => base,
            }
        },
    }
}

/// The linked-data text of an operation: a document of its one node.
pub open spec fn op_text(op: ChronicleTransaction) -> Seq<char> {
    seq!['['] + object_text(op_fields(op)) + seq![']']
}

fn sfield(key: &str, value: &str) -> (r: Field)
    ensures
        r@ == sf(key@, value@),
{
    Field { key: key.to_owned(), value: JsonValue::Str(value.to_owned()) }
}

fn vfield(key: &str, value: &str) -> (r: Field)
    ensures
        r@ == sv(key@, value@),
{
    let mut l: Vec<String> = Vec::new();
    l.push(value.to_owned());
    assert(strings_view(l@) =~= seq![value@]);
    Field { key: key.to_owned(), value: JsonValue::Values(l) }
}

fn push_head(v: &mut Vec<Field>, tag: &str)
    ensures
        fields_view(final(v)@) == fields_view(old(v)@) + seq![sf("@id"@, "_:n1"@), sf("@type"@, tag@)],
{
    let ghost before = fields_view(v@);
    v.push(sfield("@id", "_:n1"));
    v.push(sfield("@type", tag));
    assert(fields_view(v@) =~= before + seq![sf("@id"@, "_:n1"@), sf("@type"@, tag@)]);
}

fn push_value(v: &mut Vec<Field>, key: &str, value: &str)
    ensures
        fields_view(final(v)@) == fields_view(old(v)@).push(sv(key@, value@)),
{
    let f = vfield(key, value);
    let ghost before = fields_view(v@);
    v.push(f);
    assert(fields_view(v@) =~= before.push(sv(key@, value@)));
}

fn push_ns(v: &mut Vec<Field>, ns: &NamespaceId)
    ensures
        fields_view(final(v)@) == fields_view(old(v)@) + ns_props(ns@),
{
    let ghost before = fields_view(v@);
    let (name, uuid) = ns.decompose();
    push_value(v, "http://blockchaintp.com/chronicleoperations/ns#NamespaceName", name);
    push_value(v, "http://blockchaintp.com/chronicleoperations/ns#NamespaceUuid", uuid);
    assert(fields_view(v@) =~= before + ns_props(ns@));
}

/// The fields of the node of an operation.
pub fn op_to_fields(op: &ChronicleTransaction) -> (r: Vec<Field>)
    ensures
        fields_view(r@) == op_fields(*op),
{
    let mut v: Vec<Field> = Vec::new();
    match op {
        ChronicleTransaction::CreateNamespace(o) => {
            push_head(&mut v, "http://blockchaintp.com/chronicleoperations/ns#CreateNamespace");
            push_value(&mut v, "http://blockchaintp.com/chronicleoperations/ns#NamespaceName", o.name.as_str());
            push_value(&mut v, "http://blockchaintp.com/chronicleoperations/ns#NamespaceUuid", o.uuid.as_str());
        },
        ChronicleTransaction::CreateAgent(o) => {
            push_head(&mut v, "http://blockchaintp.com/chronicleoperations/ns#CreateAgent");
            push_value(&mut v, "http://blockchaintp.com/chronicleoperations/ns#AgentName", o.name.as_str());
            push_ns(&mut v, &o.namespace);
        },
        ChronicleTransaction::RegisterKey(o) => {
            push_head(&mut v, "http://blockchaintp.com/chronicleoperations/ns#RegisterKey");
            push_value(&mut v, "http://blockchaintp.com/chronicleoperations/ns#AgentName", o.name.as_str());
            push_ns(&mut v, &o.namespace);
            push_value(&mut v, "http://blockchaintp.com/chronicleoperations/ns#PublicKey", o.publickey.as_str());
        },
        ChronicleTransaction::CreateActivity(o) => {
            push_head(&mut v, "http://blockchaintp.com/chronicleoperations/ns#CreateActivity");
            push_value(&mut v, "http://blockchaintp.com/chronicleoperations/ns#ActivityName", o.name.as_str());
            push_ns(&mut v, &o.namespace);
        },
        ChronicleTransaction::StartActivity(o) => {
            push_head(&mut v, "http://blockchaintp.com/chronicleoperations/ns#StartActivity");
            push_value(&mut v, "http://blockchaintp.com/chronicleoperations/ns#ActivityName", o.id.decompose());
            push_value(&mut v, "http://blockchaintp.com/chronicleoperations/ns#AgentName", o.agent.decompose());
            push_ns(&mut v, &o.namespace);
            push_value(&mut v, "http://blockchaintp.com/chronicleoperations/ns#StartActivityTime", o.time.to_text().as_str());
        },
        ChronicleTransaction::EndActivity(o) => {
            push_head(&mut v, "http://blockchaintp.com/chronicleoperations/ns#EndActivity");
            push_value(&mut v, "http://blockchaintp.com/chronicleoperations/ns#ActivityName", o.id.decompose());
            push_value(&mut v, "http://blockchaintp.com/chronicleoperations/ns#AgentName", o.agent.decompose());
            push_ns(&mut v, &o.namespace);
            push_value(&mut v, "http://blockchaintp.com/chronicleoperations/ns#EndActivityTime", o.time.to_text().as_str());
        },
        ChronicleTransaction::ActivityUses(o) => {
            push_head(&mut v, "http://blockchaintp.com/chronicleoperations/ns#ActivityUses");
            push_value(&mut v, "http://blockchaintp.com/chronicleoperations/ns#ActivityName", o.activity.decompose());
            push_value(&mut v, "http://blockchaintp.com/chronicleoperations/ns#EntityName", o.id.decompose());
            push_ns(&mut v, &o.namespace);
        },
        ChronicleTransaction::GenerateEntity(o) => {
            push_head(&mut v, "http://blockchaintp.com/chronicleoperations/ns#GenerateEntity");
            push_value(&mut v, "http://blockchaintp.com/chronicleoperations/ns#ActivityName", o.activity.decompose());
            push_value(&mut v, "http://blockchaintp.com/chronicleoperations/ns#EntityName", o.id.decompose());
            push_ns(&mut v, &o.namespace);
        },
        ChronicleTransaction::EntityAttach(o) => {
            push_head(&mut v, "http://blockchaintp.com/chronicleoperations/ns#EntityAttach");
            push_value(&mut v, "http://blockchaintp.com/chronicleoperations/ns#AgentName", o.agent.decompose());
            push_value(&mut v, "http://blockchaintp.com/chronicleoperations/ns#EntityName", o.id.decompose());
            push_ns(&mut v, &o.namespace);
            push_value(&mut v, "http://blockchaintp.com/chronicleoperations/ns#Signature", o.signature.as_str());
            push_value(&mut v, "http://blockchaintp.com/chronicleoperations/ns#SignatureTime", o.signature_time.to_text().as_str());
            if let Some(l) = &o.locator {
                push_value(&mut v, "http://blockchaintp.com/chronicleoperations/ns#Locator", l.as_str());
            }
        },
    }
    assert(fields_view(v@) =~= op_fields(*op));
    v
}

/// The linked-data text of an operation.
pub fn op_to_json(op: &ChronicleTransaction) -> (r: String)
    ensures
        r@ == op_text(*op),
{
    let fs = op_to_fields(op);
    let mut r = String::new();
    crate::json::push_char(&mut r, '[');
    push_object(&mut r, &fs);
    crate::json::push_char(&mut r, ']');
    assert(r@ =~= op_text(*op));
    r
}

/// The type term of an operation.
pub open spec fn op_tag(op: ChronicleTransaction) -> Seq<char> {
    match op {
        ChronicleTransaction::CreateNamespace(_) => "http://blockchaintp.com/chronicleoperations/ns#CreateNamespace"@,
        ChronicleTransaction::CreateAgent(_) => "http://blockchaintp.com/chronicleoperations/ns#CreateAgent"@,
        ChronicleTransaction::RegisterKey(_) => "http://blockchaintp.com/chronicleoperations/ns#RegisterKey"@,
        ChronicleTransaction::CreateActivity(_) => "http://blockchaintp.com/chronicleoperations/ns#CreateActivity"@,
        ChronicleTransaction::StartActivity(_) => "http://blockchaintp.com/chronicleoperations/ns#StartActivity"@,
        ChronicleTransaction::EndActivity(_) => "http://blockchaintp.com/chronicleoperations/ns#EndActivity"@,
        ChronicleTransaction::ActivityUses(_) => "http://blockchaintp.com/chronicleoperations/ns#ActivityUses"@,
        ChronicleTransaction::GenerateEntity(_) => "http://blockchaintp.com/chronicleoperations/ns#GenerateEntity"@,
        ChronicleTransaction::EntityAttach(_) => "http://blockchaintp.com/chronicleoperations/ns#EntityAttach"@,
    }
}

#[verifier::rlimit(100)]
proof fn lemma_op_shape(op: ChronicleTransaction)
    ensures
        op_fields(op).len() >= 4,
        op_fields(op)[0] == sf("@id"@, "_:n1"@),
        op_fields(op)[1] == sf("@type"@, op_tag(op)),
{
    match op {
        ChronicleTransaction::EntityAttach(o) => {
            if o.locator is Some {
                assert(op_fields(op).len() == 9);
            }
        },
        _ => {},
    }
}

/// The string value of field `i` when its key is `key`.
pub(crate) fn get_str(fs: &Vec<Field>, i: usize, key: &str) -> (r: Option<String>)
    ensures
        match r {
            Some(v) => i < fs@.len() && fields_view(fs@)[i as int] == sf(key@, v@),
            None => !(i < fs@.len() && fields_view(fs@)[i as int].0 == key@
                && fields_view(fs@)[i as int].1 is Str),
        },
{
    if i >= fs.len() {
        return None;
    }
    let k = key.to_owned();
    if fs[i].key != k {
        return None;
    }
    match &fs[i].value {
        JsonValue::Str(v) => Some(v.clone()),
        JsonValue::List(_) => None,
        JsonValue::Values(_) => None,
    }
}

/// The instant in field `i` when its key is `key`.
pub(crate) fn get_time(fs: &Vec<Field>, i: usize, key: &str) -> (r: Option<Timestamp>)
    ensures
        match r {
            Some(t) => t.wf() && i < fs@.len() && fields_view(fs@)[i as int] == sf(key@, time_text(t)),
            None => forall|t: Timestamp| t.wf() ==> !(i < fs@.len() && #[trigger] fields_view(fs@)[i as int]
                == sf(key@, time_text(t))),
        },
{
    match get_str(fs, i, key) {
        None => None,
        Some(v) => {
            let cs = chars_of(v.as_str());
            let r = Timestamp::parse(&cs);
            proof {
                if r is Some {
                    lemma_time_text_parse(v@);
                } else {
                    assert forall|t: Timestamp| t.wf() implies !(i < fs@.len() && #[trigger] fields_view(fs@)[i as int]
                        == sf(key@, time_text(t))) by {
                        lemma_parse_time_text(t);
                    }
                }
            }
            r
        },
    }
}

proof fn lemma_tags_distinct()
    ensures
        "http://blockchaintp.com/chronicleoperations/ns#CreateNamespace"@ != "http://blockchaintp.com/chronicleoperations/ns#CreateAgent"@,
        "http://blockchaintp.com/chronicleoperations/ns#CreateNamespace"@ != "http://blockchaintp.com/chronicleoperations/ns#RegisterKey"@,
        "http://blockchaintp.com/chronicleoperations/ns#CreateNamespace"@ != "http://blockchaintp.com/chronicleoperations/ns#CreateActivity"@,
        "http://blockchaintp.com/chronicleoperations/ns#CreateNamespace"@ != "http://blockchaintp.com/chronicleoperations/ns#StartActivity"@,
        "http://blockchaintp.com/chronicleoperations/ns#CreateNamespace"@ != "http://blockchaintp.com/chronicleoperations/ns#EndActivity"@,
        "http://blockchaintp.com/chronicleoperations/ns#CreateNamespace"@ != "http://blockchaintp.com/chronicleoperations/ns#ActivityUses"@,
        "http://blockchaintp.com/chronicleoperations/ns#CreateNamespace"@ != "http://blockchaintp.com/chronicleoperations/ns#GenerateEntity"@,
        "http://blockchaintp.com/chronicleoperations/ns#CreateNamespace"@ != "http://blockchaintp.com/chronicleoperations/ns#EntityAttach"@,
        "http://blockchaintp.com/chronicleoperations/ns#CreateAgent"@ != "http://blockchaintp.com/chronicleoperations/ns#RegisterKey"@,
        "http://blockchaintp.com/chronicleoperations/ns#CreateAgent"@ != "http://blockchaintp.com/chronicleoperations/ns#CreateActivity"@,
        "http://blockchaintp.com/chronicleoperations/ns#CreateAgent"@ != "http://blockchaintp.com/chronicleoperations/ns#StartActivity"@,
        "http://blockchaintp.com/chronicleoperations/ns#CreateAgent"@ != "http://blockchaintp.com/chronicleoperations/ns#EndActivity"@,
        "http://blockchaintp.com/chronicleoperations/ns#CreateAgent"@ != "http://blockchaintp.com/chronicleoperations/ns#ActivityUses"@,
        "http://blockchaintp.com/chronicleoperations/ns#CreateAgent"@ != "http://blockchaintp.com/chronicleoperations/ns#GenerateEntity"@,
        "http://blockchaintp.com/chronicleoperations/ns#CreateAgent"@ != "http://blockchaintp.com/chronicleoperations/ns#EntityAttach"@,
        "http://blockchaintp.com/chronicleoperations/ns#RegisterKey"@ != "http://blockchaintp.com/chronicleoperations/ns#CreateActivity"@,
        "http://blockchaintp.com/chronicleoperations/ns#RegisterKey"@ != "http://blockchaintp.com/chronicleoperations/ns#StartActivity"@,
        "http://blockchaintp.com/chronicleoperations/ns#RegisterKey"@ != "http://blockchaintp.com/chronicleoperations/ns#EndActivity"@,
        "http://blockchaintp.com/chronicleoperations/ns#RegisterKey"@ != "http://blockchaintp.com/chronicleoperations/ns#ActivityUses"@,
        "http://blockchaintp.com/chronicleoperations/ns#RegisterKey"@ != "http://blockchaintp.com/chronicleoperations/ns#GenerateEntity"@,
        "http://blockchaintp.com/chronicleoperations/ns#RegisterKey"@ != "http://blockchaintp.com/chronicleoperations/ns#EntityAttach"@,
        "http://blockchaintp.com/chronicleoperations/ns#CreateActivity"@ != "http://blockchaintp.com/chronicleoperations/ns#StartActivity"@,
        "http://blockchaintp.com/chronicleoperations/ns#CreateActivity"@ != "http://blockchaintp.com/chronicleoperations/ns#EndActivity"@,
        "http://blockchaintp.com/chronicleoperations/ns#CreateActivity"@ != "http://blockchaintp.com/chronicleoperations/ns#ActivityUses"@,
        "http://blockchaintp.com/chronicleoperations/ns#CreateActivity"@ != "http://blockchaintp.com/chronicleoperations/ns#GenerateEntity"@,
        "http://blockchaintp.com/chronicleoperations/ns#CreateActivity"@ != "http://blockchaintp.com/chronicleoperations/ns#EntityAttach"@,
        "http://blockchaintp.com/chronicleoperations/ns#StartActivity"@ != "http://blockchaintp.com/chronicleoperations/ns#EndActivity"@,
        "http://blockchaintp.com/chronicleoperations/ns#StartActivity"@ != "http://blockchaintp.com/chronicleoperations/ns#ActivityUses"@,
        "http://blockchaintp.com/chronicleoperations/ns#StartActivity"@ != "http://blockchaintp.com/chronicleoperations/ns#GenerateEntity"@,
        "http://blockchaintp.com/chronicleoperations/ns#StartActivity"@ != "http://blockchaintp.com/chronicleoperations/ns#EntityAttach"@,
        "http://blockchaintp.com/chronicleoperations/ns#EndActivity"@ != "http://blockchaintp.com/chronicleoperations/ns#ActivityUses"@,
        "http://blockchaintp.com/chronicleoperations/ns#EndActivity"@ != "http://blockchaintp.com/chronicleoperations/ns#GenerateEntity"@,
        "http://blockchaintp.com/chronicleoperations/ns#EndActivity"@ != "http://blockchaintp.com/chronicleoperations/ns#EntityAttach"@,
        "http://blockchaintp.com/chronicleoperations/ns#ActivityUses"@ != "http://blockchaintp.com/chronicleoperations/ns#GenerateEntity"@,
        "http://blockchaintp.com/chronicleoperations/ns#ActivityUses"@ != "http://blockchaintp.com/chronicleoperations/ns#EntityAttach"@,
        "http://blockchaintp.com/chronicleoperations/ns#GenerateEntity"@ != "http://blockchaintp.com/chronicleoperations/ns#EntityAttach"@,
{
    reveal_strlit("http://blockchaintp.com/chronicleoperations/ns#CreateNamespace");
    reveal_strlit("http://blockchaintp.com/chronicleoperations/ns#CreateAgent");
    reveal_strlit("http://blockchaintp.com/chronicleoperations/ns#RegisterKey");
    reveal_strlit("http://blockchaintp.com/chronicleoperations/ns#CreateActivity");
    reveal_strlit("http://blockchaintp.com/chronicleoperations/ns#StartActivity");
    reveal_strlit("http://blockchaintp.com/chronicleoperations/ns#EndActivity");
    reveal_strlit("http://blockchaintp.com/chronicleoperations/ns#ActivityUses");
    reveal_strlit("http://blockchaintp.com/chronicleoperations/ns#GenerateEntity");
    reveal_strlit("http://blockchaintp.com/chronicleoperations/ns#EntityAttach");
    assert("http://blockchaintp.com/chronicleoperations/ns#CreateNamespace"@[47] == 'C' && "http://blockchaintp.com/chronicleoperations/ns#CreateAgent"@[47] == 'C' && "http://blockchaintp.com/chronicleoperations/ns#RegisterKey"@[47] == 'R' && "http://blockchaintp.com/chronicleoperations/ns#CreateActivity"@[47] == 'C' && "http://blockchaintp.com/chronicleoperations/ns#StartActivity"@[47] == 'S' && "http://blockchaintp.com/chronicleoperations/ns#EndActivity"@[47] == 'E' && "http://blockchaintp.com/chronicleoperations/ns#ActivityUses"@[47] == 'A' && "http://blockchaintp.com/chronicleoperations/ns#GenerateEntity"@[47] == 'G' && "http://blockchaintp.com/chronicleoperations/ns#EntityAttach"@[47] == 'E');
    assert("http://blockchaintp.com/chronicleoperations/ns#CreateNamespace"@[53] == 'N' && "http://blockchaintp.com/chronicleoperations/ns#CreateAgent"@[53] == 'A' && "http://blockchaintp.com/chronicleoperations/ns#CreateActivity"@[53] == 'A');
    assert("http://blockchaintp.com/chronicleoperations/ns#CreateAgent"@[54] == 'g' && "http://blockchaintp.com/chronicleoperations/ns#CreateActivity"@[54] == 'c');
    assert("http://blockchaintp.com/chronicleoperations/ns#EndActivity"@[49] == 'd' && "http://blockchaintp.com/chronicleoperations/ns#EntityAttach"@[49] == 't');
}

proof fn lemma_kinds_colon_free()
    ensures
        colon_free("agent"@),
        colon_free("activity"@),
        colon_free("entity"@),
{
    reveal_strlit("agent");
    reveal_strlit("activity");
    reveal_strlit("entity");
}

/// The string in the one-value property `i` when its key is `key`.
fn get_value(fs: &Vec<Field>, i: usize, key: &str) -> (r: Option<String>)
    ensures
        match r {
            Some(v) => i < fs@.len() && fields_view(fs@)[i as int] == sv(key@, v@),
            None => forall|v: Seq<char>| !(i < fs@.len() && #[trigger] sv(key@, v) == fields_view(fs@)[i as int]),
        },
{
    if i >= fs.len() {
        return None;
    }
    let k = key.to_owned();
    if fs[i].key != k {
        return None;
    }
    match &fs[i].value {
        JsonValue::Values(l) => {
            if l.len() == 1 {
                proof {
                    assert(strings_view(l@) =~= seq![l@[0]@]);
                }
                Some(l[0].clone())
            } else {
                proof {
                    assert forall|v: Seq<char>| !(i < fs@.len() && #[trigger] sv(key@, v) == fields_view(fs@)[i as int]) by {
                        if sv(key@, v) == fields_view(fs@)[i as int] {
                            assert(strings_view(l@).len() == 1);
                        }
                    }
                }
                None
            }
        },
        _ => None,
    }
}

/// A colon-free name in the one-value property `i`.
fn get_name(fs: &Vec<Field>, i: usize, key: &str) -> (r: Option<String>)
    ensures
        match r {
            Some(v) => colon_free(v@) && i < fs@.len() && fields_view(fs@)[i as int] == sv(key@, v@),
            None => forall|v: Seq<char>| colon_free(v) ==> !(i < fs@.len() && #[trigger] sv(key@, v) == fields_view(fs@)[i as int]),
        },
{
    match get_value(fs, i, key) {
        Some(v) => {
            let ok = has_no_colon(v.as_str());
            if ok {
                Some(v)
            } else {
                proof {
                    assert forall|w: Seq<char>| colon_free(w) implies !(i < fs@.len() && #[trigger] sv(key@, w) == fields_view(fs@)[i as int]) by {
                        if sv(key@, w) == fields_view(fs@)[i as int] {
                            assert(sv(key@, w).1->Values_0[0] == w);
                            assert(sv(key@, v@).1->Values_0[0] == v@);
                        }
                    }
                }
                None
            }
        },
        None => None,
    }
}

/// A valid instant in the one-value property `i`.
fn get_instant(fs: &Vec<Field>, i: usize, key: &str) -> (r: Option<Timestamp>)
    ensures
        match r {
            Some(t) => t.wf() && i < fs@.len() && fields_view(fs@)[i as int] == sv(key@, time_text(t)),
            None => forall|t: Timestamp| t.wf() ==> !(i < fs@.len() && #[trigger] sv(key@, time_text(t)) == fields_view(fs@)[i as int]),
        },
{
    match get_value(fs, i, key) {
        None => None,
        Some(v) => {
            let r = Timestamp::parse(&chars_of(v.as_str()));
            proof {
                if r is Some {
                    lemma_time_text_parse(v@);
                } else {
                    assert forall|t: Timestamp| t.wf() implies !(i < fs@.len() && #[trigger] sv(key@, time_text(t)) == fields_view(fs@)[i as int]) by {
                        lemma_parse_time_text(t);
                        if sv(key@, time_text(t)) == fields_view(fs@)[i as int] {
                            assert(sv(key@, time_text(t)).1->Values_0[0] == time_text(t));
                            assert(sv(key@, v@).1->Values_0[0] == v@);
                        }
                    }
                }
            }
            r
        },
    }
}

/// The namespace named by the properties `i` and `i + 1`.
fn get_namespace(fs: &Vec<Field>, i: usize) -> (r: Option<NamespaceId>)
    requires
        i < 100,
    ensures
        match r {
            Some(ns) => ns_canonical(ns@) && i + 1 < fs@.len() && fields_view(fs@).subrange(i as int, i + 2) == ns_props(ns@),
            None => forall|ns: Seq<char>| ns_canonical(ns) ==> !(i + 1 < fs@.len() && #[trigger] ns_props(ns) == fields_view(fs@).subrange(i as int, i + 2)),
        },
{
    let name = get_name(fs, i, "http://blockchaintp.com/chronicleoperations/ns#NamespaceName");
    let uuid = get_name(fs, i + 1, "http://blockchaintp.com/chronicleoperations/ns#NamespaceUuid");
    proof {
        assert forall|ns: Seq<char>| ns_canonical(ns) && i + 1 < fs@.len() && #[trigger] ns_props(ns) == fields_view(fs@).subrange(i as int, i + 2)
            implies name is Some && uuid is Some by {
            assert(ns_props(ns)[0] == fields_view(fs@)[i as int]);
            assert(ns_props(ns)[1] == fields_view(fs@)[i + 1]);
        }
    }
    match (name, uuid) {
        (Some(n), Some(u)) => {
            let ns = NamespaceId::from_name(n.as_str(), u.as_str());
            proof {
                lemma_ns_segments(n@, u@);
                assert(fields_view(fs@).subrange(i as int, i + 2) =~= ns_props(ns@));
            }
            Some(ns)
        },
        _ => None,
    }
}

/// Where the namespace properties stand in an operation's node.
pub open spec fn ns_index(op: ChronicleTransaction) -> int {
    match op {
        ChronicleTransaction::CreateAgent(_) | ChronicleTransaction::RegisterKey(_)
        | ChronicleTransaction::CreateActivity(_) => 3,
        _ => 4,
    }
}

proof fn lemma_op_ns(op: ChronicleTransaction)
    requires
        !(op is CreateNamespace),
    ensures
        op_fields(op).len() >= ns_index(op) + 2,
        op_fields(op).subrange(ns_index(op), ns_index(op) + 2) == ns_props(op.namespace_of()),
{
    assert(op_fields(op).subrange(ns_index(op), ns_index(op) + 2) =~= ns_props(op.namespace_of()));
}

#[verifier::rlimit(100)]
fn decode_createnamespace(fs: &Vec<Field>) -> (r: Option<ChronicleTransaction>)
    requires
        fields_view(fs@).len() >= 2,
        fields_view(fs@)[0] == sf("@id"@, "_:n1"@),
        fields_view(fs@)[1] == sf("@type"@, "http://blockchaintp.com/chronicleoperations/ns#CreateNamespace"@),
    ensures
        match r {
            Some(op) => op_wf(op) && op_fields(op) == fields_view(fs@),
            None => forall|op: ChronicleTransaction| op_wf(op) ==> op_fields(op) != fields_view(fs@),
        },
{
    proof {
        lemma_tags_distinct();
        lemma_kinds_colon_free();
    }
    let ghost fv = fields_view(fs@);
    let n = fs.len();
        if n != 4 {
            proof {
                assert forall|op: ChronicleTransaction| op_wf(op) implies op_fields(op) != fv by {
                    lemma_op_shape(op);
                    if !(op is CreateNamespace) {
                        lemma_op_ns(op);
                    }
                }
            }
            return None;
        }
        let name = match get_name(fs, 2, "http://blockchaintp.com/chronicleoperations/ns#NamespaceName") {
            Some(x) => x,
            None => {
            proof {
                assert forall|op: ChronicleTransaction| op_wf(op) implies op_fields(op) != fv by {
                    lemma_op_shape(op);
                    if !(op is CreateNamespace) {
                        lemma_op_ns(op);
                    }
                }
            }
            return None;
        },
        };
        let uuid = match get_name(fs, 3, "http://blockchaintp.com/chronicleoperations/ns#NamespaceUuid") {
            Some(x) => x,
            None => {
            proof {
                assert forall|op: ChronicleTransaction| op_wf(op) implies op_fields(op) != fv by {
                    lemma_op_shape(op);
                    if !(op is CreateNamespace) {
                        lemma_op_ns(op);
                    }
                }
            }
            return None;
        },
        };
        let id = NamespaceId::from_name(name.as_str(), uuid.as_str());
        let op = ChronicleTransaction::CreateNamespace(CreateNamespace { id, name, uuid });
        assert(op_fields(op) =~= fv);
        return Some(op);
}

#[verifier::rlimit(100)]
fn decode_createagent(fs: &Vec<Field>) -> (r: Option<ChronicleTransaction>)
    requires
        fields_view(fs@).len() >= 2,
        fields_view(fs@)[0] == sf("@id"@, "_:n1"@),
        fields_view(fs@)[1] == sf("@type"@, "http://blockchaintp.com/chronicleoperations/ns#CreateAgent"@),
    ensures
        match r {
            Some(op) => op_wf(op) && op_fields(op) == fields_view(fs@),
            None => forall|op: ChronicleTransaction| op_wf(op) ==> op_fields(op) != fields_view(fs@),
        },
{
    proof {
        lemma_tags_distinct();
        lemma_kinds_colon_free();
    }
    let ghost fv = fields_view(fs@);
    let n = fs.len();
        if n != 5 {
            proof {
                assert forall|op: ChronicleTransaction| op_wf(op) implies op_fields(op) != fv by {
                    lemma_op_shape(op);
                    if !(op is CreateNamespace) {
                        lemma_op_ns(op);
                    }
                }
            }
            return None;
        }
        let name = match get_name(fs, 2, "http://blockchaintp.com/chronicleoperations/ns#AgentName") {
            Some(x) => x,
            None => {
            proof {
                assert forall|op: ChronicleTransaction| op_wf(op) implies op_fields(op) != fv by {
                    lemma_op_shape(op);
                    if !(op is CreateNamespace) {
                        lemma_op_ns(op);
                    }
                }
            }
            return None;
        },
        };
        let ns = match get_namespace(fs, 3) {
            Some(x) => x,
            None => {
            proof {
                assert forall|op: ChronicleTransaction| op_wf(op) implies op_fields(op) != fv by {
                    lemma_op_shape(op);
                    if !(op is CreateNamespace) {
                        lemma_op_ns(op);
                    }
                }
            }
            return None;
        },
        };
        let id = AgentId::from_name(name.as_str());
        let op = ChronicleTransaction::CreateAgent(CreateAgent { namespace: ns, id, name });
        proof {
            assert(fv.subrange(3, 5) == ns_props(ns@));
        }
        assert(op_fields(op) =~= fv);
        return Some(op);
}

#[verifier::rlimit(100)]
fn decode_createactivity(fs: &Vec<Field>) -> (r: Option<ChronicleTransaction>)
    requires
        fields_view(fs@).len() >= 2,
        fields_view(fs@)[0] == sf("@id"@, "_:n1"@),
        fields_view(fs@)[1] == sf("@type"@, "http://blockchaintp.com/chronicleoperations/ns#CreateActivity"@),
    ensures
        match r {
            Some(op) => op_wf(op) && op_fields(op) == fields_view(fs@),
            None => forall|op: ChronicleTransaction| op_wf(op) ==> op_fields(op) != fields_view(fs@),
        },
{
    proof {
        lemma_tags_distinct();
        lemma_kinds_colon_free();
    }
    let ghost fv = fields_view(fs@);
    let n = fs.len();
        if n != 5 {
            proof {
                assert forall|op: ChronicleTransaction| op_wf(op) implies op_fields(op) != fv by {
                    lemma_op_shape(op);
                    if !(op is CreateNamespace) {
                        lemma_op_ns(op);
                    }
                }
            }
            return None;
        }
        let name = match get_name(fs, 2, "http://blockchaintp.com/chronicleoperations/ns#ActivityName") {
            Some(x) => x,
            None => {
            proof {
                assert forall|op: ChronicleTransaction| op_wf(op) implies op_fields(op) != fv by {
                    lemma_op_shape(op);
                    if !(op is CreateNamespace) {
                        lemma_op_ns(op);
                    }
                }
            }
            return None;
        },
        };
        let ns = match get_namespace(fs, 3) {
            Some(x) => x,
            None => {
            proof {
                assert forall|op: ChronicleTransaction| op_wf(op) implies op_fields(op) != fv by {
                    lemma_op_shape(op);
                    if !(op is CreateNamespace) {
                        lemma_op_ns(op);
                    }
                }
            }
            return None;
        },
        };
        let id = ActivityId::from_name(name.as_str());
        let op = ChronicleTransaction::CreateActivity(CreateActivity { namespace: ns, id, name });
        proof {
            assert(fv.subrange(3, 5) == ns_props(ns@));
        }
        assert(op_fields(op) =~= fv);
        return Some(op);
}

#[verifier::rlimit(100)]
fn decode_registerkey(fs: &Vec<Field>) -> (r: Option<ChronicleTransaction>)
    requires
        fields_view(fs@).len() >= 2,
        fields_view(fs@)[0] == sf("@id"@, "_:n1"@),
        fields_view(fs@)[1] == sf("@type"@, "http://blockchaintp.com/chronicleoperations/ns#RegisterKey"@),
    ensures
        match r {
            Some(op) => op_wf(op) && op_fields(op) == fields_view(fs@),
            None => forall|op: ChronicleTransaction| op_wf(op) ==> op_fields(op) != fields_view(fs@),
        },
{
    proof {
        lemma_tags_distinct();
        lemma_kinds_colon_free();
    }
    let ghost fv = fields_view(fs@);
    let n = fs.len();
        if n != 6 {
            proof {
                assert forall|op: ChronicleTransaction| op_wf(op) implies op_fields(op) != fv by {
                    lemma_op_shape(op);
                    if !(op is CreateNamespace) {
                        lemma_op_ns(op);
                    }
                }
            }
            return None;
        }
        let name = match get_name(fs, 2, "http://blockchaintp.com/chronicleoperations/ns#AgentName") {
            Some(x) => x,
            None => {
            proof {
                assert forall|op: ChronicleTransaction| op_wf(op) implies op_fields(op) != fv by {
                    lemma_op_shape(op);
                    if !(op is CreateNamespace) {
                        lemma_op_ns(op);
                    }
                }
            }
            return None;
        },
        };
        let ns = match get_namespace(fs, 3) {
            Some(x) => x,
            None => {
            proof {
                assert forall|op: ChronicleTransaction| op_wf(op) implies op_fields(op) != fv by {
                    lemma_op_shape(op);
                    if !(op is CreateNamespace) {
                        lemma_op_ns(op);
                    }
                }
            }
            return None;
        },
        };
        let publickey = match get_value(fs, 5, "http://blockchaintp.com/chronicleoperations/ns#PublicKey") {
            Some(x) => x,
            None => {
            proof {
                assert forall|op: ChronicleTransaction| op_wf(op) implies op_fields(op) != fv by {
                    lemma_op_shape(op);
                    if !(op is CreateNamespace) {
                        lemma_op_ns(op);
                    }
                }
            }
            return None;
        },
        };
        let id = AgentId::from_name(name.as_str());
        let op = ChronicleTransaction::RegisterKey(RegisterKey { namespace: ns, id, publickey, name });
        proof {
            assert(fv.subrange(3, 5) == ns_props(ns@));
        }
        assert(op_fields(op) =~= fv);
        return Some(op);
}

#[verifier::rlimit(100)]
fn decode_startactivity(fs: &Vec<Field>) -> (r: Option<ChronicleTransaction>)
    requires
        fields_view(fs@).len() >= 2,
        fields_view(fs@)[0] == sf("@id"@, "_:n1"@),
        fields_view(fs@)[1] == sf("@type"@, "http://blockchaintp.com/chronicleoperations/ns#StartActivity"@),
    ensures
        match r {
            Some(op) => op_wf(op) && op_fields(op) == fields_view(fs@),
            None => forall|op: ChronicleTransaction| op_wf(op) ==> op_fields(op) != fields_view(fs@),
        },
{
    proof {
        lemma_tags_distinct();
        lemma_kinds_colon_free();
    }
    let ghost fv = fields_view(fs@);
    let n = fs.len();
        if n != 7 {
            proof {
                assert forall|op: ChronicleTransaction| op_wf(op) implies op_fields(op) != fv by {
                    lemma_op_shape(op);
                    if !(op is CreateNamespace) {
                        lemma_op_ns(op);
                    }
                }
            }
            return None;
        }
        let act = match get_name(fs, 2, "http://blockchaintp.com/chronicleoperations/ns#ActivityName") {
            Some(x) => x,
            None => {
            proof {
                assert forall|op: ChronicleTransaction| op_wf(op) implies op_fields(op) != fv by {
                    lemma_op_shape(op);
                    if !(op is CreateNamespace) {
                        lemma_op_ns(op);
                    }
                }
            }
            return None;
        },
        };
        let ag = match get_name(fs, 3, "http://blockchaintp.com/chronicleoperations/ns#AgentName") {
            Some(x) => x,
            None => {
            proof {
                assert forall|op: ChronicleTransaction| op_wf(op) implies op_fields(op) != fv by {
                    lemma_op_shape(op);
                    if !(op is CreateNamespace) {
                        lemma_op_ns(op);
                    }
                }
            }
            return None;
        },
        };
        let ns = match get_namespace(fs, 4) {
            Some(x) => x,
            None => {
            proof {
                assert forall|op: ChronicleTransaction| op_wf(op) implies op_fields(op) != fv by {
                    lemma_op_shape(op);
                    if !(op is CreateNamespace) {
                        lemma_op_ns(op);
                    }
                }
            }
            return None;
        },
        };
        let time = match get_instant(fs, 6, "http://blockchaintp.com/chronicleoperations/ns#StartActivityTime") {
            Some(x) => x,
            None => {
            proof {
                assert forall|op: ChronicleTransaction| op_wf(op) implies op_fields(op) != fv by {
                    lemma_op_shape(op);
                    if !(op is CreateNamespace) {
                        lemma_op_ns(op);
                    }
                }
            }
            return None;
        },
        };
        let id = ActivityId::from_name(act.as_str());
        let agent = AgentId::from_name(ag.as_str());
        proof {
            lemma_iri_segment("activity"@, act@);
            lemma_iri_segment("agent"@, ag@);
            assert(fv.subrange(4, 6) == ns_props(ns@));
        }
        let op = ChronicleTransaction::StartActivity(StartActivity { namespace: ns, id, agent, time });
        assert(op_fields(op) =~= fv);
        return Some(op);
}

#[verifier::rlimit(100)]
fn decode_endactivity(fs: &Vec<Field>) -> (r: Option<ChronicleTransaction>)
    requires
        fields_view(fs@).len() >= 2,
        fields_view(fs@)[0] == sf("@id"@, "_:n1"@),
        fields_view(fs@)[1] == sf("@type"@, "http://blockchaintp.com/chronicleoperations/ns#EndActivity"@),
    ensures
        match r {
            Some(op) => op_wf(op) && op_fields(op) == fields_view(fs@),
            None => forall|op: ChronicleTransaction| op_wf(op) ==> op_fields(op) != fields_view(fs@),
        },
{
    proof {
        lemma_tags_distinct();
        lemma_kinds_colon_free();
    }
    let ghost fv = fields_view(fs@);
    let n = fs.len();
        if n != 7 {
            proof {
                assert forall|op: ChronicleTransaction| op_wf(op) implies op_fields(op) != fv by {
                    lemma_op_shape(op);
                    if !(op is CreateNamespace) {
                        lemma_op_ns(op);
                    }
                }
            }
            return None;
        }
        let act = match get_name(fs, 2, "http://blockchaintp.com/chronicleoperations/ns#ActivityName") {
            Some(x) => x,
            None => {
            proof {
                assert forall|op: ChronicleTransaction| op_wf(op) implies op_fields(op) != fv by {
                    lemma_op_shape(op);
                    if !(op is CreateNamespace) {
                        lemma_op_ns(op);
                    }
                }
            }
            return None;
        },
        };
        let ag = match get_name(fs, 3, "http://blockchaintp.com/chronicleoperations/ns#AgentName") {
            Some(x) => x,
            None => {
            proof {
                assert forall|op: ChronicleTransaction| op_wf(op) implies op_fields(op) != fv by {
                    lemma_op_shape(op);
                    if !(op is CreateNamespace) {
                        lemma_op_ns(op);
                    }
                }
            }
            return None;
        },
        };
        let ns = match get_namespace(fs, 4) {
            Some(x) => x,
            None => {
            proof {
                assert forall|op: ChronicleTransaction| op_wf(op) implies op_fields(op) != fv by {
                    lemma_op_shape(op);
                    if !(op is CreateNamespace) {
                        lemma_op_ns(op);
                    }
                }
            }
            return None;
        },
        };
        let time = match get_instant(fs, 6, "http://blockchaintp.com/chronicleoperations/ns#EndActivityTime") {
            Some(x) => x,
            None => {
            proof {
                assert forall|op: ChronicleTransaction| op_wf(op) implies op_fields(op) != fv by {
                    lemma_op_shape(op);
                    if !(op is CreateNamespace) {
                        lemma_op_ns(op);
                    }
                }
            }
            return None;
        },
        };
        let id = ActivityId::from_name(act.as_str());
        let agent = AgentId::from_name(ag.as_str());
        proof {
            lemma_iri_segment("activity"@, act@);
            lemma_iri_segment("agent"@, ag@);
            assert(fv.subrange(4, 6) == ns_props(ns@));
        }
        let op = ChronicleTransaction::EndActivity(EndActivity { namespace: ns, id, agent, time });
        assert(op_fields(op) =~= fv);
        return Some(op);
}

#[verifier::rlimit(100)]
fn decode_activityuses(fs: &Vec<Field>) -> (r: Option<ChronicleTransaction>)
    requires
        fields_view(fs@).len() >= 2,
        fields_view(fs@)[0] == sf("@id"@, "_:n1"@),
        fields_view(fs@)[1] == sf("@type"@, "http://blockchaintp.com/chronicleoperations/ns#ActivityUses"@),
    ensures
        match r {
            Some(op) => op_wf(op) && op_fields(op) == fields_view(fs@),
            None => forall|op: ChronicleTransaction| op_wf(op) ==> op_fields(op) != fields_view(fs@),
        },
{
    proof {
        lemma_tags_distinct();
        lemma_kinds_colon_free();
    }
    let ghost fv = fields_view(fs@);
    let n = fs.len();
        if n != 6 {
            proof {
                assert forall|op: ChronicleTransaction| op_wf(op) implies op_fields(op) != fv by {
                    lemma_op_shape(op);
                    if !(op is CreateNamespace) {
                        lemma_op_ns(op);
                    }
                }
            }
            return None;
        }
        let act = match get_name(fs, 2, "http://blockchaintp.com/chronicleoperations/ns#ActivityName") {
            Some(x) => x,
            None => {
            proof {
                assert forall|op: ChronicleTransaction| op_wf(op) implies op_fields(op) != fv by {
                    lemma_op_shape(op);
                    if !(op is CreateNamespace) {
                        lemma_op_ns(op);
                    }
                }
            }
            return None;
        },
        };
        let ent = match get_name(fs, 3, "http://blockchaintp.com/chronicleoperations/ns#EntityName") {
            Some(x) => x,
            None => {
            proof {
                assert forall|op: ChronicleTransaction| op_wf(op) implies op_fields(op) != fv by {
                    lemma_op_shape(op);
                    if !(op is CreateNamespace) {
                        lemma_op_ns(op);
                    }
                }
            }
            return None;
        },
        };
        let ns = match get_namespace(fs, 4) {
            Some(x) => x,
            None => {
            proof {
                assert forall|op: ChronicleTransaction| op_wf(op) implies op_fields(op) != fv by {
                    lemma_op_shape(op);
                    if !(op is CreateNamespace) {
                        lemma_op_ns(op);
                    }
                }
            }
            return None;
        },
        };
        let id = EntityId::from_name(ent.as_str());
        let activity = ActivityId::from_name(act.as_str());
        proof {
            lemma_iri_segment("activity"@, act@);
            lemma_iri_segment("entity"@, ent@);
            assert(fv.subrange(4, 6) == ns_props(ns@));
        }
        let op = ChronicleTransaction::ActivityUses(ActivityUses { namespace: ns, id, activity });
        assert(op_fields(op) =~= fv);
        return Some(op);
}

#[verifier::rlimit(100)]
fn decode_generateentity(fs: &Vec<Field>) -> (r: Option<ChronicleTransaction>)
    requires
        fields_view(fs@).len() >= 2,
        fields_view(fs@)[0] == sf("@id"@, "_:n1"@),
        fields_view(fs@)[1] == sf("@type"@, "http://blockchaintp.com/chronicleoperations/ns#GenerateEntity"@),
    ensures
        match r {
            Some(op) => op_wf(op) && op_fields(op) == fields_view(fs@),
            None => forall|op: ChronicleTransaction| op_wf(op) ==> op_fields(op) != fields_view(fs@),
        },
{
    proof {
        lemma_tags_distinct();
        lemma_kinds_colon_free();
    }
    let ghost fv = fields_view(fs@);
    let n = fs.len();
        if n != 6 {
            proof {
                assert forall|op: ChronicleTransaction| op_wf(op) implies op_fields(op) != fv by {
                    lemma_op_shape(op);
                    if !(op is CreateNamespace) {
                        lemma_op_ns(op);
                    }
                }
            }
            return None;
        }
        let act = match get_name(fs, 2, "http://blockchaintp.com/chronicleoperations/ns#ActivityName") {
            Some(x) => x,
            None => {
            proof {
                assert forall|op: ChronicleTransaction| op_wf(op) implies op_fields(op) != fv by {
                    lemma_op_shape(op);
                    if !(op is CreateNamespace) {
                        lemma_op_ns(op);
                    }
                }
            }
            return None;
        },
        };
        let ent = match get_name(fs, 3, "http://blockchaintp.com/chronicleoperations/ns#EntityName") {
            Some(x) => x,
            None => {
            proof {
                assert forall|op: ChronicleTransaction| op_wf(op) implies op_fields(op) != fv by {
                    lemma_op_shape(op);
                    if !(op is CreateNamespace) {
                        lemma_op_ns(op);
                    }
                }
            }
            return None;
        },
        };
        let ns = match get_namespace(fs, 4) {
            Some(x) => x,
            None => {
            proof {
                assert forall|op: ChronicleTransaction| op_wf(op) implies op_fields(op) != fv by {
                    lemma_op_shape(op);
                    if !(op is CreateNamespace) {
                        lemma_op_ns(op);
                    }
                }
            }
            return None;
        },
        };
        let id = EntityId::from_name(ent.as_str());
        let activity = ActivityId::from_name(act.as_str());
        proof {
            lemma_iri_segment("activity"@, act@);
            lemma_iri_segment("entity"@, ent@);
            assert(fv.subrange(4, 6) == ns_props(ns@));
        }
        let op = ChronicleTransaction::GenerateEntity(GenerateEntity { namespace: ns, id, activity });
        assert(op_fields(op) =~= fv);
        return Some(op);
}

/// The agent name, entity name, namespace, signature and signing time that an attach
/// node holds at its fixed places.
#[verifier::rlimit(100)]
fn attach_parts(fs: &Vec<Field>) -> (r: Option<(String, String, NamespaceId, String, Timestamp)>)
    ensures
        match r {
            Some((ag, ent, ns, sig, t)) => {
                let fv = fields_view(fs@);
                &&& colon_free(ag@) && colon_free(ent@) && ns_canonical(ns@) && t.wf()
                &&& fv.len() >= 8
                &&& fv[2] == sv("http://blockchaintp.com/chronicleoperations/ns#AgentName"@, ag@)
                &&& fv[3] == sv("http://blockchaintp.com/chronicleoperations/ns#EntityName"@, ent@)
                &&& fv.subrange(4, 6) == ns_props(ns@)
                &&& fv[6] == sv("http://blockchaintp.com/chronicleoperations/ns#Signature"@, sig@)
                &&& fv[7] == sv("http://blockchaintp.com/chronicleoperations/ns#SignatureTime"@, time_text(t))
            },
            None => forall|op: ChronicleTransaction| op is EntityAttach && op_wf(op) ==> op_fields(op) != fields_view(fs@),
        },
{
    let ghost fv = fields_view(fs@);
    let ag = get_name(fs, 2, "http://blockchaintp.com/chronicleoperations/ns#AgentName");
    let ent = get_name(fs, 3, "http://blockchaintp.com/chronicleoperations/ns#EntityName");
    let ns = get_namespace(fs, 4);
    let sig = get_value(fs, 6, "http://blockchaintp.com/chronicleoperations/ns#Signature");
    let t = get_instant(fs, 7, "http://blockchaintp.com/chronicleoperations/ns#SignatureTime");
    match (ag, ent, ns, sig, t) {
        (Some(ag), Some(ent), Some(ns), Some(sig), Some(t)) => Some((ag, ent, ns, sig, t)),
        _ => {
            proof {
                assert forall|op: ChronicleTransaction| op is EntityAttach && op_wf(op) implies op_fields(op) != fv by {
                    lemma_op_ns(op);
                }
            }
            None
        },
    }
}

#[verifier::rlimit(100)]
fn decode_entityattach(fs: &Vec<Field>) -> (r: Option<ChronicleTransaction>)
    requires
        fields_view(fs@).len() >= 2,
        fields_view(fs@)[0] == sf("@id"@, "_:n1"@),
        fields_view(fs@)[1] == sf("@type"@, "http://blockchaintp.com/chronicleoperations/ns#EntityAttach"@),
    ensures
        match r {
            Some(op) => op_wf(op) && op_fields(op) == fields_view(fs@),
            None => forall|op: ChronicleTransaction| op_wf(op) ==> op_fields(op) != fields_view(fs@),
        },
{
    proof {
        lemma_tags_distinct();
        lemma_kinds_colon_free();
        assert forall|op: ChronicleTransaction| op_wf(op) && op_fields(op) == fields_view(fs@) implies op is EntityAttach by {
            lemma_op_shape(op);
        }
    }
    let ghost fv = fields_view(fs@);
    let n = fs.len();
    if n != 8 && n != 9 {
        return None;
    }
    let (ag, ent, ns, signature, time) = match attach_parts(fs) {
        Some(p) => p,
        None => {
            return None;
        },
    };
    let locator = if n == 9 {
        match get_value(fs, 8, "http://blockchaintp.com/chronicleoperations/ns#Locator") {
            Some(l) => Some(l),
            None => {
                return None;
            },
        }
    } else {
        None
    };
    let id = EntityId::from_name(ent.as_str());
    let agent = AgentId::from_name(ag.as_str());
    proof {
        lemma_iri_segment("agent"@, ag@);
        lemma_iri_segment("entity"@, ent@);
    }
    let op = ChronicleTransaction::EntityAttach(EntityAttach { namespace: ns, id, agent, signature, locator, signature_time: time });
    assert(op_fields(op) =~= fv);
    Some(op)
}

/// The operation whose node has the fields `fs`, if there is one.
#[verifier::rlimit(100)]
pub fn op_from_fields(fs: &Vec<Field>) -> (r: Option<ChronicleTransaction>)
    ensures
        match r {
            Some(op) => op_wf(op) && op_fields(op) == fields_view(fs@),
            None => forall|op: ChronicleTransaction| op_wf(op) ==> op_fields(op) != fields_view(fs@),
        },
{
    proof {
        lemma_tags_distinct();
        lemma_kinds_colon_free();
    }
    let ghost fv = fields_view(fs@);
    let n = fs.len();
    let blank = match get_str(fs, 0, "@id") {
        Some(b) => b,
        None => {
            proof {
                assert forall|op: ChronicleTransaction| op_wf(op) implies op_fields(op) != fv by {
                    lemma_op_shape(op);
                    if !(op is CreateNamespace) {
                        lemma_op_ns(op);
                    }
                }
            }
            return None;
        },
    };
    if blank != String::from_str("_:n1") {
            proof {
                assert forall|op: ChronicleTransaction| op_wf(op) implies op_fields(op) != fv by {
                    lemma_op_shape(op);
                    if !(op is CreateNamespace) {
                        lemma_op_ns(op);
                    }
                }
            }
            return None;
        }
    let tag = match get_str(fs, 1, "@type") {
        Some(t) => t,
        None => {
            proof {
                assert forall|op: ChronicleTransaction| op_wf(op) implies op_fields(op) != fv by {
                    lemma_op_shape(op);
                    if !(op is CreateNamespace) {
                        lemma_op_ns(op);
                    }
                }
            }
            return None;
        },
    };
    if tag == String::from_str("http://blockchaintp.com/chronicleoperations/ns#CreateNamespace") {
        return decode_createnamespace(fs);
    }
    if tag == String::from_str("http://blockchaintp.com/chronicleoperations/ns#CreateAgent") {
        return decode_createagent(fs);
    }
    if tag == String::from_str("http://blockchaintp.com/chronicleoperations/ns#CreateActivity") {
        return decode_createactivity(fs);
    }
    if tag == String::from_str("http://blockchaintp.com/chronicleoperations/ns#RegisterKey") {
        return decode_registerkey(fs);
    }
    if tag == String::from_str("http://blockchaintp.com/chronicleoperations/ns#StartActivity") {
        return decode_startactivity(fs);
    }
    if tag == String::from_str("http://blockchaintp.com/chronicleoperations/ns#EndActivity") {
        return decode_endactivity(fs);
    }
    if tag == String::from_str("http://blockchaintp.com/chronicleoperations/ns#ActivityUses") {
        return decode_activityuses(fs);
    }
    if tag == String::from_str("http://blockchaintp.com/chronicleoperations/ns#GenerateEntity") {
        return decode_generateentity(fs);
    }
    if tag == String::from_str("http://blockchaintp.com/chronicleoperations/ns#EntityAttach") {
        return decode_entityattach(fs);
    }
    proof {
        assert forall|op: ChronicleTransaction| op_wf(op) implies op_fields(op) != fv by {
            lemma_op_shape(op);
        }
    }
    None
}

/// The fields of the node that the linked-data text `t` holds: a document of one node.
pub open spec fn op_from_text(t: Seq<char>) -> Option<Seq<(Seq<char>, JVal)>> {
    if t.len() > 0 && t[0] == '[' {
        match parse_object(t.drop_first()) {
            Some((fs, rest)) => if rest == seq![']'] {
                Some(fs)
            } else {
                None
            },
            None => None,
        }
    } else {
        None
    }
}

/// Reads the linked-data text of an operation.
pub fn op_from_json(t: &str) -> (r: Option<ChronicleTransaction>)
    ensures
        match r {
            Some(op) => op_wf(op) && op_from_text(t@) == Some(op_fields(op)),
            None => forall|op: ChronicleTransaction| op_wf(op) ==> op_from_text(t@) != Some(op_fields(op)),
        },
{
    let cs = chars_of(t);
    if cs.len() == 0 || cs[0] != '[' {
        return None;
    }
    assert(cs@.drop_first() =~= suffix(cs@, 1));
    match read_object(&cs, 1) {
        None => None,
        Some((fs, end)) => {
            let ghost rest = suffix(cs@, end as int);
            if end >= cs.len() || end + 1 != cs.len() || cs[end] != ']' {
                assert(rest.len() == 1 && rest[0] == ']' ==> end + 1 == cs@.len() && cs@[end as int] == ']');
                return None;
            }
            assert(rest =~= seq![']']);
            assert(op_from_text(t@) == Some(fields_view(fs@)));
            let r = op_from_fields(&fs);
            proof {
                if r is None {
                    assert forall|op: ChronicleTransaction| op_wf(op) implies op_from_text(t@) != Some(
                        op_fields(op),
                    ) by {
                        assert(op_fields(op) != fields_view(fs@));
                    }
                }
            }
            r
        },
    }
}

#[verifier::rlimit(100)]
proof fn lemma_fields_wf_of(op: ChronicleTransaction)
    ensures
        fields_wf(op_fields(op)),
{
    let fs = op_fields(op);
    assert forall|i: int| 0 <= i < fs.len() implies value_wf(#[trigger] fs[i].1) by {
        if fs[i].1 is Values {
            assert(fs[i].1->Values_0.len() == 1);
        }
    }
}

proof fn lemma_op_fields_wf(op: ChronicleTransaction)
    ensures
        fields_wf(op_fields(op)),
{
    lemma_fields_wf_of(op);
}

/// An operation's linked-data text reads back as the fields of its node.
pub proof fn lemma_op_text_round_trip(op: ChronicleTransaction)
    ensures
        op_from_text(op_text(op)) == Some(op_fields(op)),
{
    lemma_op_fields_wf(op);
    lemma_parse_object_text(op_fields(op), seq![']']);
    assert(op_text(op).drop_first() =~= object_text(op_fields(op)) + seq![']']);
}

proof fn lemma_time_text_injective(t1: Timestamp, t2: Timestamp)
    requires
        t1.wf(),
        t2.wf(),
        time_text(t1) == time_text(t2),
    ensures
        t1 == t2,
{
    lemma_parse_time_text(t1);
    lemma_parse_time_text(t2);
}

proof fn lemma_same_tag_same_kind(a: ChronicleTransaction, b: ChronicleTransaction)
    requires
        op_tag(a) == op_tag(b),
    ensures
        a is CreateNamespace <==> b is CreateNamespace,
        a is CreateAgent <==> b is CreateAgent,
        a is RegisterKey <==> b is RegisterKey,
        a is CreateActivity <==> b is CreateActivity,
        a is StartActivity <==> b is StartActivity,
        a is EndActivity <==> b is EndActivity,
        a is ActivityUses <==> b is ActivityUses,
        a is GenerateEntity <==> b is GenerateEntity,
        a is EntityAttach <==> b is EntityAttach,
{
    lemma_tags_distinct();
}

/// The two operations are of one kind and their fields have the same views.
pub open spec fn same_op(a: ChronicleTransaction, b: ChronicleTransaction) -> bool {
    match (a, b) {
        (ChronicleTransaction::CreateNamespace(x), ChronicleTransaction::CreateNamespace(y)) =>
            x.id@ == y.id@ && x.name@ == y.name@ && x.uuid@ == y.uuid@,
        (ChronicleTransaction::CreateAgent(x), ChronicleTransaction::CreateAgent(y)) =>
            x.namespace@ == y.namespace@ && x.id@ == y.id@ && x.name@ == y.name@,
        (ChronicleTransaction::RegisterKey(x), ChronicleTransaction::RegisterKey(y)) =>
            x.namespace@ == y.namespace@ && x.id@ == y.id@ && x.name@ == y.name@ && x.publickey@ == y.publickey@,
        (ChronicleTransaction::CreateActivity(x), ChronicleTransaction::CreateActivity(y)) =>
            x.namespace@ == y.namespace@ && x.id@ == y.id@ && x.name@ == y.name@,
        (ChronicleTransaction::StartActivity(x), ChronicleTransaction::StartActivity(y)) =>
            x.namespace@ == y.namespace@ && x.id@ == y.id@ && x.agent@ == y.agent@ && x.time == y.time,
        (ChronicleTransaction::EndActivity(x), ChronicleTransaction::EndActivity(y)) =>
            x.namespace@ == y.namespace@ && x.id@ == y.id@ && x.agent@ == y.agent@ && x.time == y.time,
        (ChronicleTransaction::ActivityUses(x), ChronicleTransaction::ActivityUses(y)) =>
            x.namespace@ == y.namespace@ && x.id@ == y.id@ && x.activity@ == y.activity@,
        (ChronicleTransaction::GenerateEntity(x), ChronicleTransaction::GenerateEntity(y)) =>
            x.namespace@ == y.namespace@ && x.id@ == y.id@ && x.activity@ == y.activity@,
        (ChronicleTransaction::EntityAttach(x), ChronicleTransaction::EntityAttach(y)) =>
            x.namespace@ == y.namespace@ && x.id@ == y.id@ && x.agent@ == y.agent@
                && x.signature@ == y.signature@ && opt_view(x.locator) == opt_view(y.locator)
                && x.signature_time == y.signature_time,
        _ => false,
    }
}

#[verifier::rlimit(100)]
proof fn lemma_fields_createnamespace(a: ChronicleTransaction, b: ChronicleTransaction)
    requires
        a is CreateNamespace,
        b is CreateNamespace,
        op_wf(a),
        op_wf(b),
        op_fields(a) == op_fields(b),
    ensures
        same_op(a, b),
{
    let fa = op_fields(a);
    let fb = op_fields(b);
    assert(fa[2] == fb[2] && fa[3] == fb[3]);
    assert(fa[2].1->Values_0[0] == fb[2].1->Values_0[0]);
    assert(fa[3].1->Values_0[0] == fb[3].1->Values_0[0]);
}

#[verifier::rlimit(100)]
proof fn lemma_fields_createagent(a: ChronicleTransaction, b: ChronicleTransaction)
    requires
        a is CreateAgent,
        b is CreateAgent,
        op_wf(a),
        op_wf(b),
        op_fields(a) == op_fields(b),
    ensures
        same_op(a, b),
{
    let fa = op_fields(a);
    let fb = op_fields(b);
    assert(fa[2] == fb[2] && fa[3] == fb[3] && fa[4] == fb[4]);
    assert(fa[2].1->Values_0[0] == fb[2].1->Values_0[0]);
    assert(fa[3].1->Values_0[0] == fb[3].1->Values_0[0]);
    assert(fa[4].1->Values_0[0] == fb[4].1->Values_0[0]);
}

#[verifier::rlimit(100)]
proof fn lemma_fields_registerkey(a: ChronicleTransaction, b: ChronicleTransaction)
    requires
        a is RegisterKey,
        b is RegisterKey,
        op_wf(a),
        op_wf(b),
        op_fields(a) == op_fields(b),
    ensures
        same_op(a, b),
{
    let fa = op_fields(a);
    let fb = op_fields(b);
    assert(fa[2] == fb[2] && fa[3] == fb[3] && fa[4] == fb[4] && fa[5] == fb[5]);
    assert(fa[2].1->Values_0[0] == fb[2].1->Values_0[0]);
    assert(fa[3].1->Values_0[0] == fb[3].1->Values_0[0]);
    assert(fa[4].1->Values_0[0] == fb[4].1->Values_0[0]);
    assert(fa[5].1->Values_0[0] == fb[5].1->Values_0[0]);
}

#[verifier::rlimit(100)]
proof fn lemma_fields_createactivity(a: ChronicleTransaction, b: ChronicleTransaction)
    requires
        a is CreateActivity,
        b is CreateActivity,
        op_wf(a),
        op_wf(b),
        op_fields(a) == op_fields(b),
    ensures
        same_op(a, b),
{
    let fa = op_fields(a);
    let fb = op_fields(b);
    assert(fa[2] == fb[2] && fa[3] == fb[3] && fa[4] == fb[4]);
    assert(fa[2].1->Values_0[0] == fb[2].1->Values_0[0]);
    assert(fa[3].1->Values_0[0] == fb[3].1->Values_0[0]);
    assert(fa[4].1->Values_0[0] == fb[4].1->Values_0[0]);
}

#[verifier::rlimit(100)]
proof fn lemma_fields_startactivity(a: ChronicleTransaction, b: ChronicleTransaction)
    requires
        a is StartActivity,
        b is StartActivity,
        op_wf(a),
        op_wf(b),
        op_fields(a) == op_fields(b),
    ensures
        same_op(a, b),
{
    let fa = op_fields(a);
    let fb = op_fields(b);
    assert(fa[2] == fb[2] && fa[3] == fb[3] && fa[4] == fb[4] && fa[5] == fb[5] && fa[6] == fb[6]);
    assert(fa[2].1->Values_0[0] == fb[2].1->Values_0[0]);
    assert(fa[3].1->Values_0[0] == fb[3].1->Values_0[0]);
    assert(fa[4].1->Values_0[0] == fb[4].1->Values_0[0]);
    assert(fa[5].1->Values_0[0] == fb[5].1->Values_0[0]);
    assert(fa[6].1->Values_0[0] == fb[6].1->Values_0[0]);
    lemma_time_text_injective(a->StartActivity_0.time, b->StartActivity_0.time);
}

#[verifier::rlimit(100)]
proof fn lemma_fields_endactivity(a: ChronicleTransaction, b: ChronicleTransaction)
    requires
        a is EndActivity,
        b is EndActivity,
        op_wf(a),
        op_wf(b),
        op_fields(a) == op_fields(b),
    ensures
        same_op(a, b),
{
    let fa = op_fields(a);
    let fb = op_fields(b);
    assert(fa[2] == fb[2] && fa[3] == fb[3] && fa[4] == fb[4] && fa[5] == fb[5] && fa[6] == fb[6]);
    assert(fa[2].1->Values_0[0] == fb[2].1->Values_0[0]);
    assert(fa[3].1->Values_0[0] == fb[3].1->Values_0[0]);
    assert(fa[4].1->Values_0[0] == fb[4].1->Values_0[0]);
    assert(fa[5].1->Values_0[0] == fb[5].1->Values_0[0]);
    assert(fa[6].1->Values_0[0] == fb[6].1->Values_0[0]);
    lemma_time_text_injective(a->EndActivity_0.time, b->EndActivity_0.time);
}

#[verifier::rlimit(100)]
proof fn lemma_fields_activityuses(a: ChronicleTransaction, b: ChronicleTransaction)
    requires
        a is ActivityUses,
        b is ActivityUses,
        op_wf(a),
        op_wf(b),
        op_fields(a) == op_fields(b),
    ensures
        same_op(a, b),
{
    let fa = op_fields(a);
    let fb = op_fields(b);
    assert(fa[2] == fb[2] && fa[3] == fb[3] && fa[4] == fb[4] && fa[5] == fb[5]);
    assert(fa[2].1->Values_0[0] == fb[2].1->Values_0[0]);
    assert(fa[3].1->Values_0[0] == fb[3].1->Values_0[0]);
    assert(fa[4].1->Values_0[0] == fb[4].1->Values_0[0]);
    assert(fa[5].1->Values_0[0] == fb[5].1->Values_0[0]);
}

#[verifier::rlimit(100)]
proof fn lemma_fields_generateentity(a: ChronicleTransaction, b: ChronicleTransaction)
    requires
        a is GenerateEntity,
        b is GenerateEntity,
        op_wf(a),
        op_wf(b),
        op_fields(a) == op_fields(b),
    ensures
        same_op(a, b),
{
    let fa = op_fields(a);
    let fb = op_fields(b);
    assert(fa[2] == fb[2] && fa[3] == fb[3] && fa[4] == fb[4] && fa[5] == fb[5]);
    assert(fa[2].1->Values_0[0] == fb[2].1->Values_0[0]);
    assert(fa[3].1->Values_0[0] == fb[3].1->Values_0[0]);
    assert(fa[4].1->Values_0[0] == fb[4].1->Values_0[0]);
    assert(fa[5].1->Values_0[0] == fb[5].1->Values_0[0]);
}

#[verifier::rlimit(100)]
proof fn lemma_fields_entityattach(a: ChronicleTransaction, b: ChronicleTransaction)
    requires
        a is EntityAttach,
        b is EntityAttach,
        op_wf(a),
        op_wf(b),
        op_fields(a) == op_fields(b),
    ensures
        same_op(a, b),
{
    let fa = op_fields(a);
    let fb = op_fields(b);
    assert(fa[2] == fb[2] && fa[3] == fb[3] && fa[4] == fb[4] && fa[5] == fb[5] && fa[6] == fb[6] && fa[7] == fb[7]);
    assert(fa[2].1->Values_0[0] == fb[2].1->Values_0[0]);
    assert(fa[3].1->Values_0[0] == fb[3].1->Values_0[0]);
    assert(fa[4].1->Values_0[0] == fb[4].1->Values_0[0]);
    assert(fa[5].1->Values_0[0] == fb[5].1->Values_0[0]);
    assert(fa[6].1->Values_0[0] == fb[6].1->Values_0[0]);
    assert(fa[7].1->Values_0[0] == fb[7].1->Values_0[0]);
    lemma_time_text_injective(a->EntityAttach_0.signature_time, b->EntityAttach_0.signature_time);
    assert(fa.len() == fb.len());
    if a->EntityAttach_0.locator is Some {
        assert(fa[8] == fb[8]);
        assert(fa[8].1->Values_0[0] == fb[8].1->Values_0[0]);
    }
}

proof fn lemma_same_fields_same_op(a: ChronicleTransaction, b: ChronicleTransaction)
    requires
        op_wf(a),
        op_wf(b),
        op_fields(a) == op_fields(b),
    ensures
        same_op(a, b),
{
    lemma_op_shape(a);
    lemma_op_shape(b);
    assert(op_fields(a)[1] == op_fields(b)[1]);
    lemma_same_tag_same_kind(a, b);
    match a {
        ChronicleTransaction::CreateNamespace(_) => lemma_fields_createnamespace(a, b),
        ChronicleTransaction::CreateAgent(_) => lemma_fields_createagent(a, b),
        ChronicleTransaction::RegisterKey(_) => lemma_fields_registerkey(a, b),
        ChronicleTransaction::CreateActivity(_) => lemma_fields_createactivity(a, b),
        ChronicleTransaction::StartActivity(_) => lemma_fields_startactivity(a, b),
        ChronicleTransaction::EndActivity(_) => lemma_fields_endactivity(a, b),
        ChronicleTransaction::ActivityUses(_) => lemma_fields_activityuses(a, b),
        ChronicleTransaction::GenerateEntity(_) => lemma_fields_generateentity(a, b),
        ChronicleTransaction::EntityAttach(_) => lemma_fields_entityattach(a, b),
    }
}

/// Operations of one kind whose fields have the same views have the same effect.
proof fn lemma_same_op_same_effect(a: ChronicleTransaction, b: ChronicleTransaction, m: ModelV)
    requires
        same_op(a, b),
    ensures
        op_error(m, a) == op_error(m, b),
        apply_op(m, a) == apply_op(m, b),
        dependency_seq(a) == dependency_seq(b),
{
    assert(apply_op(m, a) =~= apply_op(m, b));
}

/// Two valid operations with the same linked-data fields have the same effect on every
/// model and depend on the same resources.
pub proof fn lemma_same_fields_same_effect(a: ChronicleTransaction, b: ChronicleTransaction, m: ModelV)
    requires
        op_wf(a),
        op_wf(b),
        op_fields(a) == op_fields(b),
    ensures
        op_error(m, a) == op_error(m, b),
        apply_op(m, a) == apply_op(m, b),
        dependency_seq(a) == dependency_seq(b),
{
    lemma_same_fields_same_op(a, b);
    lemma_same_op_same_effect(a, b, m);
}

} // verus!
