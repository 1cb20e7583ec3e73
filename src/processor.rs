//! The transaction processor: it rebuilds the state that a batch reads, applies the
//! batch, and returns what it writes.
use vstd::prelude::*;
use vstd::utf8::*;
use crate::address::{family_prefix, FAMILY};
use crate::graph::{merge_node, node_fields, resource_text};
use crate::address::LedgerAddress;
use crate::ledger::{address_seq, dependency_seq, StateInput, StateOutput};
use crate::model::{opt_view, apply_op, empty_model, op_error, run_ops, Key, ModelV, ProcessorError, ProvModel};
use crate::codec::{lemma_same_fields_same_effect, op_fields, op_from_text, op_wf};
use crate::ops::ChronicleTransaction;
use crate::protocol::{
    check_protocol_version, chronicle_operations_from_submission, EnvelopeError, Submission,
};

verus! {

/// Relies on std::str::from_utf8: the text of `b` when `b` is valid UTF-8.
#[verifier::external_body]
fn utf8_text(b: &[u8]) -> (r: Option<&str>)
    ensures
        r is Some <==> valid_utf8(b@),
        r is Some ==> r->Some_0@ == decode_utf8(b@),
{
    std::str::from_utf8(b).ok()
}

/// `m` with the node stored in each of `inputs` merged into it, in order; `None` when one
/// of them is not the UTF-8 text of a node.
pub open spec fn rehydrate(m: ModelV, inputs: Seq<Seq<u8>>) -> Option<ModelV>
    decreases inputs.len(),
{
    if inputs.len() == 0 {
        Some(m)
    } else {
        match rehydrate(m, inputs.drop_last()) {
            None => None,
            Some(m1) => {
                let b = inputs.last();
                if valid_utf8(b) {
                    match node_fields(decode_utf8(b)) {
                        Some(fs) => merge_node(m1, fs),
                        None => None,
                    }
                } else {
                    None
                }
            },
        }
    }
}

pub open spec fn input_bytes(inputs: Seq<StateInput>) -> Seq<Seq<u8>> {
    inputs.map_values(|i: StateInput| i.data@)
}

/// The resources that a batch writes, in order: those of each operation in turn.
pub open spec fn batch_dependencies(ops: Seq<ChronicleTransaction>) -> Seq<Key>
    decreases ops.len(),
{
    if ops.len() == 0 {
        Seq::empty()
    } else {
        batch_dependencies(ops.drop_last()) + dependency_seq(ops.last())
    }
}

pub open spec fn output_keys(outs: Seq<StateOutput>) -> Seq<Key> {
    outs.map_values(|o: StateOutput| (o.address.namespace@, o.address.resource@))
}

/// `s` with each key kept at its first place only.
pub open spec fn distinct(s: Seq<Key>) -> Seq<Key>
    decreases s.len(),
{
    if s.len() == 0 {
        s
    } else {
        let d = distinct(s.drop_last());
        if d.contains(s.last()) {
            d
        } else {
            d.push(s.last())
        }
    }
}

/// For each of `keys` whose node text differs between `m0` and `m1`, the key and the UTF-8
/// bytes of its node in `m1`.
pub open spec fn writes(m0: ProvModel, m1: ProvModel, keys: Seq<Key>) -> Seq<(Key, Seq<u8>)>
    decreases keys.len(),
{
    if keys.len() == 0 {
        Seq::empty()
    } else {
        let rest = writes(m0, m1, keys.drop_last());
        let k = keys.last();
        if resource_text(m1, k) is Some && resource_text(m0, k) != resource_text(m1, k) {
            rest.push((k, encode_utf8(resource_text(m1, k)->Some_0)))
        } else {
            rest
        }
    }
}

pub open spec fn output_view(outs: Seq<StateOutput>) -> Seq<(Key, Seq<u8>)> {
    outs.map_values(|o: StateOutput| ((o.address.namespace@, o.address.resource@), o.data@))
}

/// What executing `batch` over the model rebuilt from `inputs` writes: the changed nodes
/// among those the batch depends on, each once, as they are after the batch.
pub open spec fn execution(inputs: Seq<StateInput>, batch: Seq<ChronicleTransaction>, r: Result<Vec<StateOutput>, ProcessorError>) -> bool {
    match rehydrate(empty_model(), input_bytes(inputs)) {
        None => r == Err::<Vec<StateOutput>, ProcessorError>(ProcessorError::MalformedDocument),
        Some(v0) => match run_ops(v0, batch) {
            Err(e) => r == Err::<Vec<StateOutput>, ProcessorError>(e),
            Ok(v1) => r is Ok && exists|m0: ProvModel, m1: ProvModel|
                m0.wf() && m1.wf() && m0@ == v0 && m1@ == v1 && output_view(r->Ok_0@) == writes(
                    m0,
                    m1,
                    distinct(batch_dependencies(batch)),
                ),
        },
    }
}

fn same_text(a: &Option<String>, b: &Option<String>) -> (r: bool)
    ensures
        r == (opt_view(*a) == opt_view(*b)),
{
    match (a, b) {
        (Some(x), Some(y)) => *x == *y,
        (None, None) => true,
        _ => false,
    }
}

fn contains_address(v: &Vec<LedgerAddress>, a: &LedgerAddress) -> (r: bool)
    ensures
        r == address_seq(v@).contains((a.namespace@, a.resource@)),
{
    let mut i: usize = 0;
    while i < v.len()
        invariant
            i <= v@.len(),
            forall|j: int| 0 <= j < i ==> address_seq(v@)[j] != (a.namespace@, a.resource@),
        decreases v@.len() - i,
    {
        if v[i].namespace == a.namespace && v[i].resource == a.resource {
            assert(address_seq(v@)[i as int] == (a.namespace@, a.resource@));
            return true;
        }
        i = i + 1;
    }
    false
}

/// Rebuilds the model from the nodes in `inputs`, then applies `batch` in order. Writes the
/// node of each resource the batch depends on whose text changed, once, as it is after
/// the batch.
pub fn execute(inputs: &Vec<StateInput>, batch: &Vec<ChronicleTransaction>) -> (r: Result<Vec<StateOutput>, ProcessorError>)
    ensures
        execution(inputs@, batch@, r),
{
    let mut model = ProvModel::new();
    let mut i: usize = 0;
    while i < inputs.len()
        invariant
            i <= inputs@.len(),
            model.wf(),
            rehydrate(empty_model(), input_bytes(inputs@).take(i as int)) == Some(model@),
        decreases inputs@.len() - i,
    {
        let ghost prefix = input_bytes(inputs@).take(i + 1);
        assert(prefix.drop_last() =~= input_bytes(inputs@).take(i as int));
        assert(prefix.last() == inputs@[i as int].data@);
        let text = match utf8_text(inputs[i].data.as_slice()) {
            Some(t) => t,
            None => {
                proof {
                    lemma_rehydrate_stops(empty_model(), input_bytes(inputs@), i + 1);
                }
                return Err(ProcessorError::MalformedDocument);
            },
        };
        match model.apply_json_ld(text) {
            Ok(_) => {},
            Err(_) => {
                proof {
                    lemma_rehydrate_stops(empty_model(), input_bytes(inputs@), i + 1);
                }
                return Err(ProcessorError::MalformedDocument);
            },
        }
        i = i + 1;
    }
    assert(input_bytes(inputs@).take(inputs@.len() as int) =~= input_bytes(inputs@));
    let ghost v0 = model@;
    let ghost m0 = model;
    // every address the batch depends on, in order
    let mut flat: Vec<LedgerAddress> = Vec::new();
    let mut j: usize = 0;
    while j < batch.len()
        invariant
            j <= batch@.len(),
            address_seq(flat@) == batch_dependencies(batch@.take(j as int)),
        decreases batch@.len() - j,
    {
        let ghost prefix = batch@.take(j + 1);
        assert(prefix.drop_last() =~= batch@.take(j as int));
        let mut deps = batch[j].dependencies();
        let ghost before = flat@;
        let ghost d = deps@;
        flat.append(&mut deps);
        assert(address_seq(flat@) =~= address_seq(before) + address_seq(d));
        j = j + 1;
    }
    assert(batch@.take(batch@.len() as int) =~= batch@);
    // each once
    let mut keys: Vec<LedgerAddress> = Vec::new();
    let mut k: usize = 0;
    while k < flat.len()
        invariant
            k <= flat@.len(),
            address_seq(keys@) == distinct(address_seq(flat@).take(k as int)),
        decreases flat@.len() - k,
    {
        let ghost t = address_seq(flat@).take(k + 1);
        assert(t.drop_last() =~= address_seq(flat@).take(k as int));
        assert(t.last() == (flat@[k as int].namespace@, flat@[k as int].resource@));
        if !contains_address(&keys, &flat[k]) {
            let ghost before = keys@;
            keys.push(flat[k].clone_address());
            assert(address_seq(keys@) =~= address_seq(before).push(t.last()));
        }
        k = k + 1;
    }
    assert(address_seq(flat@).take(flat@.len() as int) =~= address_seq(flat@));
    // the nodes as they were
    let mut before: Vec<Option<String>> = Vec::new();
    let mut k: usize = 0;
    while k < keys.len()
        invariant
            model == m0,
            model.wf(),
            k <= keys@.len(),
            before@.len() == k,
            forall|x: int| 0 <= x < k ==> opt_view(#[trigger] before@[x]) == resource_text(m0, address_seq(keys@)[x]),
        decreases keys@.len() - k,
    {
        before.push(model.resource_to_json(&keys[k].namespace, &keys[k].resource));
        k = k + 1;
    }
    // the batch
    let mut j: usize = 0;
    while j < batch.len()
        invariant
            j <= batch@.len(),
            model.wf(),
            rehydrate(empty_model(), input_bytes(inputs@)) == Some(v0),
            run_ops(v0, batch@.take(j as int)) == Ok::<ModelV, ProcessorError>(model@),
        decreases batch@.len() - j,
    {
        let ghost prefix = batch@.take(j + 1);
        assert(prefix.drop_last() =~= batch@.take(j as int));
        assert(prefix.last() == batch@[j as int]);
        match model.apply(&batch[j]) {
            Ok(_) => {},
            Err(e) => {
                proof {
                    assert(run_ops(v0, batch@.take(j + 1)) == Err::<ModelV, ProcessorError>(e));
                    lemma_run_stops_at(v0, batch@, j + 1);
                }
                return Err(e);
            },
        }
        j = j + 1;
    }
    assert(batch@.take(batch@.len() as int) =~= batch@);
    // the nodes that changed
    let ghost ks = address_seq(keys@);
    let mut outs: Vec<StateOutput> = Vec::new();
    let mut k: usize = 0;
    while k < keys.len()
        invariant
            model.wf(),
            k <= keys@.len(),
            ks == address_seq(keys@),
            before@.len() == keys@.len(),
            forall|x: int| 0 <= x < keys@.len() ==> opt_view(#[trigger] before@[x]) == resource_text(m0, ks[x]),
            output_view(outs@) == writes(m0, model, ks.take(k as int)),
        decreases keys@.len() - k,
    {
        let ghost t = ks.take(k + 1);
        assert(t.drop_last() =~= ks.take(k as int));
        assert(t.last() == ks[k as int]);
        let after = model.resource_to_json(&keys[k].namespace, &keys[k].resource);
        let changed = !same_text(&before[k], &after);
        match after {
            Some(text) => {
                if changed {
                    let ghost prev = outs@;
                    let data = text.as_str().as_bytes_vec();
                    outs.push(StateOutput::new(keys[k].clone_address(), data));
                    assert(output_view(outs@) =~= output_view(prev).push((ks[k as int], encode_utf8(text@))));
                }
            },
            None => {},
        }
        k = k + 1;
    }
    assert(ks.take(ks.len() as int) =~= ks);
    Ok(outs)
}

proof fn lemma_rehydrate_stops(m: ModelV, inputs: Seq<Seq<u8>>, n: int)
    requires
        0 <= n <= inputs.len(),
        rehydrate(m, inputs.take(n)) is None,
    ensures
        rehydrate(m, inputs) is None,
    decreases inputs.len() - n,
{
    if n < inputs.len() {
        assert(inputs.take(n + 1).drop_last() =~= inputs.take(n));
        lemma_rehydrate_stops(m, inputs, n + 1);
    } else {
        assert(inputs.take(n) =~= inputs);
    }
}

proof fn lemma_run_stops_at(m: ModelV, ops: Seq<ChronicleTransaction>, n: int)
    requires
        0 <= n <= ops.len(),
        run_ops(m, ops.take(n)) is Err,
    ensures
        run_ops(m, ops) == run_ops(m, ops.take(n)),
    decreases ops.len() - n,
{
    if n < ops.len() {
        assert(ops.take(n + 1).drop_last() =~= ops.take(n));
        lemma_run_stops_at(m, ops, n + 1);
    } else {
        assert(ops.take(n) =~= ops);
    }
}

/// `ops` are the operations whose linked-data texts are `body`, in order.
pub open spec fn body_ops(body: Seq<String>, ops: Seq<ChronicleTransaction>) -> bool {
    &&& ops.len() == body.len()
    &&& forall|i: int| 0 <= i < body.len() ==> op_wf(#[trigger] ops[i]) && op_from_text(body[i]@)
        == Some(op_fields(ops[i]))
}

/// Element `i` of `body` is not the linked-data text of a valid operation.
pub open spec fn malformed_at(body: Seq<String>, i: int) -> bool {
    0 <= i < body.len() && forall|op: ChronicleTransaction| op_wf(op) ==> op_from_text(body[i]@)
        != Some(op_fields(op))
}

/// What processing the decoded batch `ops` over the state `inputs` gives.
pub open spec fn batch_outcome(inputs: Seq<StateInput>, ops: Seq<ChronicleTransaction>, r: Result<Vec<StateOutput>, ApplyError>) -> bool {
    match r {
        Ok(outs) => execution(inputs, ops, Ok(outs)),
        Err(ApplyError::Processor(e)) => execution(inputs, ops, Err(e)),
        Err(ApplyError::Envelope(_)) => false,
    }
}

/// Two decodings of one body run alike and write the same resources.
proof fn lemma_body_ops_agree(body: Seq<String>, a: Seq<ChronicleTransaction>, b: Seq<ChronicleTransaction>, m: ModelV)
    requires
        body_ops(body, a),
        body_ops(body, b),
    ensures
        run_ops(m, a) == run_ops(m, b),
        batch_dependencies(a) == batch_dependencies(b),
    decreases a.len(),
{
    if a.len() > 0 {
        let n = a.len() - 1;
        let body2 = body.drop_last();
        assert(body_ops(body2, a.drop_last())) by {
            assert forall|i: int| 0 <= i < body2.len() implies op_wf(#[trigger] a.drop_last()[i])
                && op_from_text(body2[i]@) == Some(op_fields(a.drop_last()[i])) by {
                assert(a.drop_last()[i] == a[i]);
            }
        }
        assert(body_ops(body2, b.drop_last())) by {
            assert forall|i: int| 0 <= i < body2.len() implies op_wf(#[trigger] b.drop_last()[i])
                && op_from_text(body2[i]@) == Some(op_fields(b.drop_last()[i])) by {
                assert(b.drop_last()[i] == b[i]);
            }
        }
        lemma_body_ops_agree(body2, a.drop_last(), b.drop_last(), m);
        assert(op_wf(a[n]) && op_wf(b[n]));
        assert(op_from_text(body[n]@) == Some(op_fields(a[n])));
        assert(op_from_text(body[n]@) == Some(op_fields(b[n])));
        if let Ok(m1) = run_ops(m, a.drop_last()) {
            lemma_same_fields_same_effect(a[n], b[n], m1);
        }
        lemma_same_fields_same_effect(a[n], b[n], m);
    }
}

/// Why the processor refused a transaction.
#[derive(Debug, Clone, PartialEq, Eq)]
pub enum ApplyError {
    Envelope(EnvelopeError),
    Processor(ProcessorError),
}

/// The processor of the provenance transaction family.
#[derive(Debug, Clone)]
pub struct ChronicleTransactionHandler {
    pub family_name: String,
    pub family_versions: Vec<String>,
    /// The address prefixes that the family owns.
    pub namespaces: Vec<String>,
}

/// The version of the transaction family.
pub const VERSION: &'static str = "1.0";

impl ChronicleTransactionHandler {
    pub fn new() -> (r: ChronicleTransactionHandler)
        ensures
            r.family_name@ == FAMILY@,
            r.family_versions@.len() == 1 && r.family_versions@[0]@ == VERSION@,
            r.namespaces@.len() == 1 && r.namespaces@[0]@ == crate::address::family_prefix_of(FAMILY@),
    {
        ChronicleTransactionHandler {
            family_name: FAMILY.to_owned(),
            family_versions: vec![VERSION.to_owned()],
            namespaces: vec![family_prefix(FAMILY)],
        }
    }

    /// Processes one envelope: checks its version, reads its operations, rebuilds the state
    /// in `inputs` and applies the operations to it.
    pub fn apply(&self, submission: &Submission, inputs: &Vec<StateInput>) -> (r: Result<Vec<StateOutput>, ApplyError>)
        ensures
            submission.version@ != crate::protocol::PROTOCOL_VERSION@ ==> r == Err::<Vec<StateOutput>, ApplyError>(
                ApplyError::Envelope(EnvelopeError::UnsupportedProtocolVersion { found: submission.version })),
            submission.version@ == crate::protocol::PROTOCOL_VERSION@ ==> {
                &&& r matches Err(ApplyError::Envelope(EnvelopeError::MalformedOperation { index }))
                    ==> malformed_at(submission.body@, index as int)
                &&& r matches Err(ApplyError::Envelope(e)) ==> e is MalformedOperation
                &&& forall|ops: Seq<ChronicleTransaction>| body_ops(submission.body@, ops) ==> batch_outcome(inputs@, ops, r)
                &&& (forall|i: int| 0 <= i < submission.body@.len() ==> !malformed_at(submission.body@, i))
                    ==> !(r matches Err(ApplyError::Envelope(_)))
            },
    {
        match check_protocol_version(submission) {
            Err(e) => {
                return Err(ApplyError::Envelope(e));
            },
            Ok(_) => {},
        }
        let ops = match chronicle_operations_from_submission(&submission.body) {
            Ok(ops) => ops,
            Err(e) => {
                proof {
                    if let EnvelopeError::MalformedOperation { index } = e {
                        assert(malformed_at(submission.body@, index as int));
                        assert forall|other: Seq<ChronicleTransaction>| !body_ops(submission.body@, other) by {
                            if body_ops(submission.body@, other) {
                                assert(op_wf(other[index as int]));
                            }
                        }
                    }
                }
                return Err(ApplyError::Envelope(e));
            },
        };
        let r = match execute(inputs, &ops) {
            Ok(outs) => Ok(outs),
            Err(e) => Err(ApplyError::Processor(e)),
        };
        proof {
            assert(body_ops(submission.body@, ops@));
            assert forall|other: Seq<ChronicleTransaction>| body_ops(submission.body@, other) implies batch_outcome(inputs@, other, r) by {
                if let Some(m0) = rehydrate(empty_model(), input_bytes(inputs@)) {
                    lemma_body_ops_agree(submission.body@, ops@, other, m0);
                }
            }
        }
        r
    }
}

} // verus!
