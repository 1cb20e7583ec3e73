//! Checking the signature of an entity's attachment against its signer's current key.
use vstd::prelude::*;
use crate::address::{hex_of, to_hex};
use crate::ids::{EntityId, NamespaceId};
use crate::model::{ModelV, ProvModel};
use crate::table::{lemma_table_index, Record};

verus! {

/// Whether `signature` (64 bytes, r then s) is a valid ECDSA secp256k1 signature of
/// `message` under the DER-encoded public key `public_key`.
pub uninterp spec fn signature_valid(public_key: Seq<u8>, message: Seq<u8>, signature: Seq<u8>) -> bool;

/// Relies on k256: the key is read with `DecodePublicKey::from_public_key_der`, the
/// signature with `Signature::from_slice`, and `Verifier::verify` decides; a key or a
/// signature that does not parse gives false.
#[verifier::external_body]
fn ecdsa_verify(public_key: &[u8], message: &[u8], signature: &[u8]) -> (r: bool)
    ensures
        r == signature_valid(public_key@, message@, signature@),
{
    let key = match <k256::ecdsa::VerifyingKey as k256::pkcs8::DecodePublicKey>::from_public_key_der(public_key) {
        Ok(k) => k,
        Err(_) => return false,
    };
    let sig = match k256::ecdsa::Signature::from_slice(signature) {
        Ok(s) => s,
        Err(_) => return false,
    };
    <k256::ecdsa::VerifyingKey as k256::ecdsa::signature::Verifier<k256::ecdsa::Signature>>::verify(&key, message, &sig).is_ok()
}

/// Relies on hex::decode: lowercase hex text decodes to the bytes it was written from.
#[verifier::external_body]
fn from_hex(s: &str) -> (r: Option<Vec<u8>>)
    ensures
        forall|b: Seq<u8>| hex_of(b) == s@ ==> r is Some && r->Some_0@ == b,
        r is Some ==> r->Some_0@.len() * 2 == s@.len(),
{
    match hex::decode(s) {
        Ok(b) => Some(b),
        Err(_) => None,
    }
}

/// The current attachment of the entity `(ns, id)` carries a valid signature of `content`
/// under its signer's current key, both written in lowercase hex.
pub open spec fn attachment_verified(m: ModelV, ns: Seq<char>, id: Seq<char>, content: Seq<u8>) -> bool {
    &&& m.entities.contains_key((ns, id))
    &&& m.entities[(ns, id)].attachment is Some
    &&& {
        let a = m.entities[(ns, id)].attachment->Some_0;
        &&& m.agents.contains_key((ns, a.signer))
        &&& m.agents[(ns, a.signer)].key is Some
        &&& exists|kb: Seq<u8>, sb: Seq<u8>|
            hex_of(kb) == m.agents[(ns, a.signer)].key->Some_0 && hex_of(sb) == a.signature
                && signature_valid(kb, content, sb)
    }
}

impl ProvModel {
    /// Whether the entity's current attachment is signed over `content` by its signer's
    /// current key.
    pub fn verify_attachment(&self, ns: &NamespaceId, id: &EntityId, content: &Vec<u8>) -> (r: bool)
        requires
            self.wf(),
        ensures
            r == attachment_verified(self@, ns@, id@, content@),
    {
        let ei = match self.find_entity(ns, id) {
            Some(e) => e,
            None => {
                return false;
            },
        };
        proof {
            lemma_table_index(self.entities@, ei as int);
        }
        let att = match &self.entities[ei].attachment {
            Some(a) => a,
            None => {
                return false;
            },
        };
        let ai = match self.find_agent(ns, &att.signer) {
            Some(a) => a,
            None => {
                return false;
            },
        };
        proof {
            lemma_table_index(self.agents@, ai as int);
        }
        let key = match &self.agents[ai].publickey {
            Some(key) => key,
            None => {
                return false;
            },
        };
        let kb = match from_hex(key.as_str()) {
            Some(b) => b,
            None => {
                return false;
            },
        };
        let sb = match from_hex(att.signature.as_str()) {
            Some(b) => b,
            None => {
                return false;
            },
        };
        if to_hex(kb.as_slice()) != *key || to_hex(sb.as_slice()) != att.signature {
            return false;
        }
        let r = ecdsa_verify(kb.as_slice(), content.as_slice(), sb.as_slice());
        proof {
            if r {
                assert(hex_of(kb@) == key@ && hex_of(sb@) == att.signature@ && signature_valid(kb@, content@, sb@));
            }
            if !r {
                assert forall|x: Seq<u8>, y: Seq<u8>|
                    !(hex_of(x) == key@ && hex_of(y) == att.signature@ && signature_valid(x, content@, y)) by {
                    if hex_of(x) == key@ && hex_of(y) == att.signature@ {
                        assert(kb@ == x);
                        assert(sb@ == y);
                    }
                }
            }
        }
        r
    }
}

} // verus!
