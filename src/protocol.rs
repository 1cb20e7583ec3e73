//! The transaction envelope: a protocol version, a span id and the linked-data text of
//! each operation, framed as protocol buffers.
use vstd::prelude::*;
use vstd::utf8::*;
use crate::codec::{op_fields, op_from_json, op_from_text, op_text, op_to_json, op_wf};
use crate::json::strings_view;
use crate::ops::ChronicleTransaction;

verus! {

/// The protocol version that this library writes and accepts.
pub const PROTOCOL_VERSION: &'static str = "1";

/// The protocol-buffer varint of `v`: seven bits per byte, low bits first.
pub open spec fn varint(v: nat) -> Seq<u8>
    decreases v,
{
    if v < 128 {
        seq![v as u8]
    } else {
        seq![((v % 128) + 128) as u8] + varint(v / 128)
    }
}

/// A length-delimited field: its key, the byte length of `s`, then the UTF-8 bytes of `s`.
pub open spec fn string_field(tag: nat, s: Seq<char>) -> Seq<u8> {
    varint(tag * 8 + 2) + varint(encode_utf8(s).len()) + encode_utf8(s)
}

/// Relies on prost::encoding::string::encode: appends the key of `tag` with the
/// length-delimited wire type, the byte length of `value`, then its UTF-8 bytes.
#[verifier::external_body]
fn put_string_field(tag: u32, value: &String, buf: &mut Vec<u8>)
    requires
        1 <= tag <= 536870911,
    ensures
        final(buf)@ == old(buf)@ + string_field(tag as nat, value@),
{
    prost::encoding::string::encode(tag, value, buf)
}

/// A singular string field, left out when the string is empty.
pub open spec fn singular_field(tag: nat, s: Seq<char>) -> Seq<u8> {
    if s.len() == 0 {
        Seq::empty()
    } else {
        string_field(tag, s)
    }
}

/// One field for each string of `l`, in order.
pub open spec fn repeated_field(tag: nat, l: Seq<Seq<char>>) -> Seq<u8>
    decreases l.len(),
{
    if l.len() == 0 {
        Seq::empty()
    } else {
        repeated_field(tag, l.drop_last()) + string_field(tag, l.last())
    }
}

/// The bytes of an envelope: version as field 1, span id as field 2, each body element as
/// field 3.
pub open spec fn submission_bytes(version: Seq<char>, span_id: Seq<char>, body: Seq<Seq<char>>) -> Seq<u8> {
    singular_field(1, version) + singular_field(2, span_id) + repeated_field(3, body)
}

/// A transaction envelope.
#[derive(Debug, Clone, PartialEq, Eq)]
pub struct Submission {
    pub version: String,
    pub span_id: String,
    /// The linked-data text of each operation, in order.
    pub body: Vec<String>,
}

/// Why an envelope was refused.
#[derive(Debug, Clone, PartialEq, Eq)]
pub enum EnvelopeError {
    UnsupportedProtocolVersion { found: String },
    /// A body element is not the linked-data text of a valid operation; `index` says which.
    MalformedOperation { index: usize },
}

/// The envelope for `payload`: the current protocol version, an empty span id, and the
/// linked-data text of each operation.
pub fn create_operation_submission_request(payload: &Vec<ChronicleTransaction>) -> (r: Submission)
    requires
        forall|i: int| 0 <= i < payload@.len() ==> op_wf(#[trigger] payload@[i]),
    ensures
        r.version@ == PROTOCOL_VERSION@,
        r.span_id@ == Seq::<char>::empty(),
        strings_view(r.body@) == payload@.map_values(|op: ChronicleTransaction| op_text(op)),
{
    let mut ops: Vec<String> = Vec::new();
    let mut i: usize = 0;
    while i < payload.len()
        invariant
            i <= payload@.len(),
            forall|j: int| 0 <= j < payload@.len() ==> op_wf(#[trigger] payload@[j]),
            strings_view(ops@) == payload@.take(i as int).map_values(
                |op: ChronicleTransaction| op_text(op),
            ),
        decreases payload@.len() - i,
    {
        let text = op_to_json(&payload[i]);
        let ghost before = ops@;
        ops.push(text);
        assert(strings_view(ops@) =~= strings_view(before).push(text@));
        assert(payload@.take(i + 1) =~= payload@.take(i as int).push(payload@[i as int]));
        assert(payload@.take(i + 1).map_values(|op: ChronicleTransaction| op_text(op))
            =~= payload@.take(i as int).map_values(|op: ChronicleTransaction| op_text(op)).push(
            op_text(payload@[i as int]),
        ));
        assert(strings_view(ops@) =~= payload@.take(i + 1).map_values(
            |op: ChronicleTransaction| op_text(op),
        ));
        i = i + 1;
    }
    assert(payload@.take(payload@.len() as int) =~= payload@);
    Submission {
        version: PROTOCOL_VERSION.to_owned(),
        span_id: String::new(),
        body: ops,
    }
}

/// The protocol-buffer bytes of an envelope.
pub fn serialize_submission(submission: &Submission) -> (r: Vec<u8>)
    ensures
        r@ == submission_bytes(
            submission.version@,
            submission.span_id@,
            strings_view(submission.body@),
        ),
{
    let mut buf: Vec<u8> = Vec::new();
    if submission.version.as_str().unicode_len() > 0 {
        put_string_field(1, &submission.version, &mut buf);
    }
    if submission.span_id.as_str().unicode_len() > 0 {
        put_string_field(2, &submission.span_id, &mut buf);
    }
    let ghost head = buf@;
    let ghost body = strings_view(submission.body@);
    let mut i: usize = 0;
    while i < submission.body.len()
        invariant
            i <= submission.body@.len(),
            body == strings_view(submission.body@),
            buf@ == head + repeated_field(3, body.take(i as int)),
        decreases submission.body@.len() - i,
    {
        put_string_field(3, &submission.body[i], &mut buf);
        proof {
            let next = body.take(i + 1);
            assert(next.drop_last() =~= body.take(i as int));
            assert(next.last() == body[i as int]);
        }
        i = i + 1;
    }
    assert(body.take(body.len() as int) =~= body);
    buf
}

/// Accepts only the protocol version that this library speaks.
pub fn check_protocol_version(submission: &Submission) -> (r: Result<(), EnvelopeError>)
    ensures
        r is Ok <==> submission.version@ == PROTOCOL_VERSION@,
        r is Err ==> r == Err::<(), EnvelopeError>(
            EnvelopeError::UnsupportedProtocolVersion { found: submission.version },
        ),
{
    if submission.version == PROTOCOL_VERSION.to_owned() {
        Ok(())
    } else {
        Err(EnvelopeError::UnsupportedProtocolVersion { found: submission.version.clone() })
    }
}

/// The operations of an envelope's body, in order; fails on the first element that is not
/// the linked-data text of a valid operation.
pub fn chronicle_operations_from_submission(body: &Vec<String>) -> (r: Result<Vec<ChronicleTransaction>, EnvelopeError>)
    ensures
        match r {
            Ok(ops) => ops@.len() == body@.len() && forall|i: int| 0 <= i < body@.len() ==> op_wf(
                #[trigger] ops@[i],
            ) && op_from_text(body@[i]@) == Some(op_fields(ops@[i])),
            Err(EnvelopeError::MalformedOperation { index }) => index < body@.len()
                && forall|op: ChronicleTransaction| op_wf(op) ==> op_from_text(body@[index as int]@)
                != Some(op_fields(op)),
            Err(_) => false,
        },
{
    let mut ops: Vec<ChronicleTransaction> = Vec::new();
    let mut i: usize = 0;
    while i < body.len()
        invariant
            i <= body@.len(),
            ops@.len() == i,
            forall|j: int| 0 <= j < i ==> op_wf(#[trigger] ops@[j]) && op_from_text(body@[j]@)
                == Some(op_fields(ops@[j])),
        decreases body@.len() - i,
    {
        match op_from_json(body[i].as_str()) {
            Some(op) => {
                ops.push(op);
            },
            None => {
                return Err(EnvelopeError::MalformedOperation { index: i });
            },
        }
        i = i + 1;
    }
    Ok(ops)
}

} // verus!
