//! State addresses: a family prefix followed by the hex of a SHA-256 digest.
use vstd::prelude::*;
use vstd::utf8::*;

verus! {

/// What SHA-256 gives for `b`.
pub uninterp spec fn sha256_of(b: Seq<u8>) -> Seq<u8>;

/// Relies on sha2::Sha256::digest: the SHA-256 digest of `data`, 32 bytes long.
#[verifier::external_body]
fn sha256(data: &[u8]) -> (r: Vec<u8>)
    ensures
        r@ == sha256_of(data@),
        r@.len() == 32,
{
    <sha2::Sha256 as sha2::Digest>::digest(data).to_vec()
}

/// The lowercase hex digit of `n < 16`.
pub open spec fn hex_digit(n: u8) -> char {
    if n < 10 {
        (n + 48) as char
    } else {
        (n + 87) as char
    }
}

/// Whether `c` is a lowercase hex digit.
pub open spec fn is_lower_hex(c: char) -> bool {
    ('0' <= c && c <= '9') || ('a' <= c && c <= 'f')
}

/// Two lowercase hex digits per byte, high nibble first.
pub open spec fn hex_of(b: Seq<u8>) -> Seq<char> {
    Seq::new(
        2 * b.len(),
        |i: int|
            if i % 2 == 0 {
                hex_digit(b[i / 2] / 16)
            } else {
                hex_digit(b[i / 2] % 16)
            },
    )
}

/// Relies on hex::encode: two lowercase digits per byte, high nibble first.
#[verifier::external_body]
pub(crate) fn to_hex(data: &[u8]) -> (r: String)
    ensures
        r@ == hex_of(data@),
{
    hex::encode(data)
}

/// The text that a resource's address is computed from.
pub open spec fn address_text(namespace: Seq<char>, resource: Seq<char>) -> Seq<char> {
    namespace + ":"@ + resource
}

/// The first six hex digits of the digest of the family name.
pub open spec fn family_prefix_of(family: Seq<char>) -> Seq<char> {
    hex_of(sha256_of(encode_utf8(family))).take(6)
}

/// A family prefix followed by the hex of the digest of `text`.
pub open spec fn hashed_address(family: Seq<char>, text: Seq<char>) -> Seq<char> {
    family_prefix_of(family) + hex_of(sha256_of(encode_utf8(text)))
}

/// The name of the transaction family whose state holds the provenance graph.
pub const FAMILY: &'static str = "chronicle";

/// The name of the transaction family whose state holds policies and keys.
pub const OPA_FAMILY: &'static str = "opa";

/// The address of the resource `resource` of the namespace `namespace`.
pub open spec fn state_address(namespace: Seq<char>, resource: Seq<char>) -> Seq<char> {
    hashed_address(FAMILY@, address_text(namespace, resource))
}

/// The six hex digits that open every address of `family`.
pub fn family_prefix(family: &str) -> (r: String)
    ensures
        r@ == family_prefix_of(family@),
        r@.len() == 6,
        forall|i: int| 0 <= i < 6 ==> is_lower_hex(#[trigger] r@[i]),
{
    let digest = sha256(family.as_bytes());
    let h = to_hex(digest.as_slice());
    let r = h.as_str().substring_char(0, 6).to_owned();
    proof {
        assert forall|i: int| 0 <= i < 6 implies is_lower_hex(#[trigger] r@[i]) by {
            assert(r@[i] == hex_of(digest@)[i]);
            let b = digest@[i / 2];
            assert(b / 16 < 16 && b % 16 < 16);
        }
    }
    r
}

/// The prefix of `family` followed by the 64 hex digits of the digest of `text`.
pub fn hash_and_append(family: &str, text: &str) -> (r: String)
    ensures
        r@ == hashed_address(family@, text@),
        r@.len() == 70,
        r@.subrange(0, 6) == family_prefix_of(family@),
        r@.subrange(6, 70) == hex_of(sha256_of(encode_utf8(text@))),
        forall|i: int| 0 <= i < 6 ==> is_lower_hex(#[trigger] r@[i]),
{
    let mut r = family_prefix(family);
    let digest = sha256(text.as_bytes());
    let h = to_hex(digest.as_slice());
    r.append(h.as_str());
    assert(r@.subrange(0, 6) =~= family_prefix_of(family@));
    assert(forall|i: int| 0 <= i < 6 ==> r@[i] == r@.subrange(0, 6)[i]);
    assert(r@.subrange(6, 70) =~= hex_of(sha256_of(encode_utf8(text@))));
    r
}

/// A resource in the state: its namespace and its identifier.
#[derive(Debug, Clone, Hash, PartialEq, Eq, PartialOrd, Ord)]
pub struct LedgerAddress {
    pub namespace: String,
    pub resource: String,
}

impl LedgerAddress {
    pub fn clone_address(&self) -> (r: LedgerAddress)
        ensures
            r.namespace@ == self.namespace@,
            r.resource@ == self.resource@,
    {
        LedgerAddress { namespace: self.namespace.clone(), resource: self.resource.clone() }
    }

    /// The 70 hex digits under which the resource is stored.
    pub fn to_address(&self) -> (r: String)
        ensures
            r@ == state_address(self.namespace@, self.resource@),
            r@.len() == 70,
    {
        let mut text = self.namespace.clone();
        text.append(":");
        text.append(self.resource.as_str());
        hash_and_append(FAMILY, text.as_str())
    }
}

/// The address of a policy's binary.
pub fn policy_address(id: &str) -> (r: String)
    ensures
        r@ == hashed_address(OPA_FAMILY@, "opa:policy:binary:"@ + id@),
        r@.len() == 70,
        r@.subrange(0, 6) == family_prefix_of(OPA_FAMILY@),
        r@.subrange(6, 70) == hex_of(sha256_of(encode_utf8("opa:policy:binary:"@ + id@))),
        forall|i: int| 0 <= i < 6 ==> is_lower_hex(#[trigger] r@[i]),
{
    let mut text = String::from_str("opa:policy:binary:");
    text.append(id);
    hash_and_append(OPA_FAMILY, text.as_str())
}

/// The address of a policy's metadata.
pub fn policy_meta_address(id: &str) -> (r: String)
    ensures
        r@ == hashed_address(OPA_FAMILY@, "opa:policy:meta:"@ + id@),
        r@.len() == 70,
        r@.subrange(0, 6) == family_prefix_of(OPA_FAMILY@),
        r@.subrange(6, 70) == hex_of(sha256_of(encode_utf8("opa:policy:meta:"@ + id@))),
        forall|i: int| 0 <= i < 6 ==> is_lower_hex(#[trigger] r@[i]),
{
    let mut text = String::from_str("opa:policy:meta:");
    text.append(id);
    hash_and_append(OPA_FAMILY, text.as_str())
}

/// The address of the keys registered under `id`.
pub fn key_address(id: &str) -> (r: String)
    ensures
        r@ == hashed_address(OPA_FAMILY@, "opa:keys:"@ + id@),
        r@.len() == 70,
        r@.subrange(0, 6) == family_prefix_of(OPA_FAMILY@),
        r@.subrange(6, 70) == hex_of(sha256_of(encode_utf8("opa:keys:"@ + id@))),
        forall|i: int| 0 <= i < 6 ==> is_lower_hex(#[trigger] r@[i]),
{
    let mut text = String::from_str("opa:keys:");
    text.append(id);
    hash_and_append(OPA_FAMILY, text.as_str())
}

proof fn lemma_hex_digit_injective(a: u8, b: u8)
    requires
        a < 16,
        b < 16,
        hex_digit(a) == hex_digit(b),
    ensures
        a == b,
{
}

/// Equal hex texts come from equal bytes.
pub proof fn lemma_hex_injective(a: Seq<u8>, b: Seq<u8>)
    requires
        hex_of(a) == hex_of(b),
    ensures
        a == b,
{
    assert(hex_of(a).len() == 2 * a.len());
    assert(hex_of(b).len() == 2 * b.len());
    assert(a.len() == b.len());
    assert forall|i: int| 0 <= i < a.len() implies a[i] == b[i] by {
        let j = 2 * i;
        assert(j / 2 == i && j % 2 == 0 && (j + 1) / 2 == i && (j + 1) % 2 == 1);
        assert(0 <= j && j + 1 < 2 * a.len());
        assert(hex_of(a)[j] == hex_digit(a[i] / 16));
        assert(hex_of(b)[j] == hex_digit(b[i] / 16));
        assert(hex_of(a)[j + 1] == hex_digit(a[i] % 16));
        assert(hex_of(b)[j + 1] == hex_digit(b[i] % 16));
        lemma_hex_digit_injective(a[i] / 16, b[i] / 16);
        lemma_hex_digit_injective(a[i] % 16, b[i] % 16);
    }
    assert(a =~= b);
}

/// Two resources whose address texts differ share an address only if SHA-256 maps two
/// different byte strings to one digest.
pub proof fn lemma_address_collision(ns: Seq<char>, r: Seq<char>, ns2: Seq<char>, r2: Seq<char>)
    requires
        address_text(ns, r) != address_text(ns2, r2),
        state_address(ns, r) == state_address(ns2, r2),
    ensures
        encode_utf8(address_text(ns, r)) != encode_utf8(address_text(ns2, r2)),
        sha256_of(encode_utf8(address_text(ns, r))) == sha256_of(
            encode_utf8(address_text(ns2, r2)),
        ),
{
    let t1 = address_text(ns, r);
    let t2 = address_text(ns2, r2);
    let p = family_prefix_of(FAMILY@);
    let h1 = hex_of(sha256_of(encode_utf8(t1)));
    let h2 = hex_of(sha256_of(encode_utf8(t2)));
    assert((p + h1).len() == (p + h2).len());
    assert(h1 =~= (p + h1).subrange(p.len() as int, (p + h1).len() as int));
    assert(h2 =~= (p + h2).subrange(p.len() as int, (p + h2).len() as int));
    lemma_hex_injective(sha256_of(encode_utf8(t1)), sha256_of(encode_utf8(t2)));
    encode_utf8_decode_utf8(t1);
    encode_utf8_decode_utf8(t2);
}

} // verus!
