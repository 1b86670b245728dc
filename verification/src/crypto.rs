//! Integrity and authenticity: content digests over received bytes, the
//! detached-signature scheme over an edwards-curve key, and the embedded
//! signed-envelope scheme over a named-curve key supplied as PEM text.

use base64::Engine;
use ed25519_dalek::Verifier;
use vstd::prelude::*;
use vstd::utf8::encode_utf8;
use crate::errors::NrtmError;
use crate::validators::seq_ci_equal;
use crate::validators::spec_contains_seq;
use crate::validators::spec_ends_with;
use crate::validators::str_ci_eq;
use crate::validators::str_contains;
use crate::validators::str_ends_with;
use vstd::string::StrSliceExecFns;
use vstd::string::StringExecFns;

verus! {

/// What sha256's digest yields for a byte buffer: its 64-character
/// hexadecimal form. The result is a function of the bytes alone.
pub uninterp spec fn sha256_hex_of(data: Seq<u8>) -> Seq<char>;

/// Relies on sha256::digest: the hexadecimal form, 64 characters long, of
/// the 256-bit content digest of the bytes; deterministic in the bytes.
#[verifier::external_body]
pub(crate) fn sha256_hex(data: &Vec<u8>) -> (r: String)
    ensures
        r@ == sha256_hex_of(data@),
        r@.len() == 64,
{
    sha256::digest(&data[..])
}

/// What base64's standard-alphabet decoder yields for a text, or nothing
/// when the text is not standard base64. Deterministic in the input.
pub uninterp spec fn b64_decode_of(text: Seq<u8>) -> Option<Seq<u8>>;

/// Relies on base64::engine::general_purpose::STANDARD.decode;
/// deterministic in the input bytes.
#[verifier::external_body]
fn b64_decode(text: &Vec<u8>) -> (r: Option<Vec<u8>>)
    ensures
        r is Some <==> b64_decode_of(text@) is Some,
        r is Some ==> r.unwrap()@ == b64_decode_of(text@).unwrap(),
{
    match base64::engine::general_purpose::STANDARD.decode(&text[..]) {
        Ok(v) => Some(v),
        Err(_) => None,
    }
}

/// Whether 32 bytes decode to a valid public key of the edwards-curve
/// scheme. Deterministic in the bytes.
pub uninterp spec fn ed25519_key_ok(key: Seq<u8>) -> bool;

/// Relies on ed25519_dalek::VerifyingKey::from_bytes: whether the 32 bytes
/// are a decodable public key; deterministic in the bytes.
#[verifier::external_body]
fn ed25519_key_valid(key: &Vec<u8>) -> (r: bool)
    requires
        key@.len() == 32,
    ensures
        r == ed25519_key_ok(key@),
{
    let mut arr = [0u8; 32];
    arr.copy_from_slice(&key[..]);
    ed25519_dalek::VerifyingKey::from_bytes(&arr).is_ok()
}

/// Whether a 64-byte signature verifies over a message under a 32-byte key.
/// Deterministic in all three arguments.
pub uninterp spec fn ed25519_sig_ok(key: Seq<u8>, msg: Seq<u8>, sig: Seq<u8>) -> bool;

/// Relies on ed25519_dalek::VerifyingKey::verify, with
/// Signature::from_bytes converting the 64 signature bytes; deterministic
/// in the key, message and signature bytes.
#[verifier::external_body]
fn ed25519_verify(key: &Vec<u8>, msg: &Vec<u8>, sig: &Vec<u8>) -> (r: bool)
    requires
        key@.len() == 32,
        ed25519_key_ok(key@),
        sig@.len() == 64,
    ensures
        r == ed25519_sig_ok(key@, msg@, sig@),
{
    let mut karr = [0u8; 32];
    karr.copy_from_slice(&key[..]);
    let vk = match ed25519_dalek::VerifyingKey::from_bytes(&karr) {
        Ok(k) => k,
        Err(_) => return false,
    };
    let mut sarr = [0u8; 64];
    sarr.copy_from_slice(&sig[..]);
    let s = ed25519_dalek::Signature::from_bytes(&sarr);
    vk.verify(&msg[..], &s).is_ok()
}

/// What josekit recovers from a compact signed envelope under a PEM public
/// key: the payload bytes when the envelope's signature verifies, nothing
/// otherwise. Deterministic in the envelope and the key text.
pub uninterp spec fn jws_es256_payload(input: Seq<u8>, pem_key: Seq<char>) -> Option<Seq<u8>>;

/// Relies on two josekit calls: EcdsaJwsAlgorithm::Es256.verifier_from_pem,
/// which builds the verifier from the PEM public key, and
/// jws::deserialize_compact, which checks the three-part envelope and
/// recovers its payload only when the signature is valid. Both are
/// deterministic in their inputs.
#[verifier::external_body]
fn jws_verify_es256(input: &Vec<u8>, pem_key: &str) -> (r: Option<Vec<u8>>)
    ensures
        r is Some <==> jws_es256_payload(input@, pem_key@) is Some,
        r is Some ==> r.unwrap()@ == jws_es256_payload(input@, pem_key@).unwrap(),
{
    let verifier = match josekit::jws::alg::ecdsa::EcdsaJwsAlgorithm::Es256.verifier_from_pem(
        pem_key,
    ) {
        Ok(v) => v,
        Err(_) => return None,
    };
    match josekit::jws::deserialize_compact(&input[..], &verifier) {
        Ok((payload, _header)) => Some(payload),
        Err(_) => None,
    }
}

/// Recovers the payload of a signed envelope, or fails with an authenticity
/// error; no payload is exposed on failure.
pub fn open_envelope(input: Vec<u8>, pem_key: &str) -> (r: Result<Vec<u8>, NrtmError>)
    ensures
        r is Ok <==> jws_es256_payload(input@, pem_key@) is Some,
        r is Ok ==> r.unwrap()@ == jws_es256_payload(input@, pem_key@).unwrap(),
        r is Err ==> r->Err_0 == NrtmError::AuthenticityEnvelope,
{
    match jws_verify_es256(&input, pem_key) {
        Some(payload) => Ok(payload),
        None => Err(NrtmError::AuthenticityEnvelope),
    }
}

/// A trust anchor of the detached-signature scheme: a fixed-length raw
/// public key, already checked decodable.
#[derive(Debug)]
pub struct PublicKey {
    raw: Vec<u8>,
}

impl PublicKey {
    /// A well-formed anchor: 32 bytes that decode to a valid key.
    pub closed spec fn wf(&self) -> bool {
        self.raw@.len() == 32 && ed25519_key_ok(self.raw@)
    }

    /// The raw key bytes.
    pub closed spec fn key_bytes(&self) -> Seq<u8> {
        self.raw@
    }
}

/// Parses a base64 trust anchor into a public key: the text must decode to
/// exactly 32 bytes that form a valid key. Malformed input is a
/// configuration error, fatal before any network activity.
pub fn parse_public_key(public_key_str: &str) -> (r: Result<PublicKey, NrtmError>)
    ensures
        r is Ok <==> (b64_decode_of(encode_utf8(public_key_str@)) is Some && b64_decode_of(
            encode_utf8(public_key_str@),
        ).unwrap().len() == 32 && ed25519_key_ok(
            b64_decode_of(encode_utf8(public_key_str@)).unwrap(),
        )),
        r is Ok ==> r.unwrap().wf() && r.unwrap().key_bytes() == b64_decode_of(
            encode_utf8(public_key_str@),
        ).unwrap(),
        r is Err ==> r->Err_0 == NrtmError::AuthenticityKey,
{
    let text = public_key_str.as_bytes_vec();
    match b64_decode(&text) {
        None => Err(NrtmError::AuthenticityKey),
        Some(raw) => {
            if raw.len() != 32 {
                return Err(NrtmError::AuthenticityKey);
            }
            if !ed25519_key_valid(&raw) {
                return Err(NrtmError::AuthenticityKey);
            }
            Ok(PublicKey { raw })
        },
    }
}

/// Verifies a detached signature over the raw document bytes: the signature
/// text must decode to exactly 64 bytes that verify under the key. Bad
/// encoding, wrong length, or cryptographic rejection is fatal.
pub fn check_signature(public_key: &PublicKey, content: &Vec<u8>, signature_base64: &Vec<u8>) -> (r:
    Result<(), NrtmError>)
    requires
        public_key.wf(),
    ensures
        r is Ok <==> (b64_decode_of(signature_base64@) is Some && b64_decode_of(
            signature_base64@,
        ).unwrap().len() == 64 && ed25519_sig_ok(
            public_key.key_bytes(),
            content@,
            b64_decode_of(signature_base64@).unwrap(),
        )),
        r is Err ==> r->Err_0 == NrtmError::AuthenticitySignature,
{
    match b64_decode(signature_base64) {
        None => Err(NrtmError::AuthenticitySignature),
        Some(sig) => {
            if sig.len() != 64 {
                return Err(NrtmError::AuthenticitySignature);
            }
            if ed25519_verify(&public_key.raw, content, &sig) {
                Ok(())
            } else {
                Err(NrtmError::AuthenticitySignature)
            }
        },
    }
}

/// The integrity rule: the received bytes' content digest must equal the
/// referenced digest, compared as case-normalized hexadecimal text.
pub fn check_expected_hash(data: &Vec<u8>, expected: Option<&String>, url: &str) -> (r: Result<
    (),
    NrtmError,
>)
    ensures
        expected is None ==> r is Ok,
        expected is Some ==> (r is Ok <==> seq_ci_equal(
            expected.unwrap()@,
            sha256_hex_of(data@),
        )),
        r is Err ==> (r->Err_0 matches NrtmError::Integrity {
            url: u,
            expected_hash,
            actual_hash,
        } && u@ == url@ && expected_hash@ == expected.unwrap()@ && actual_hash@ == sha256_hex_of(
            data@,
        )),
{
    match expected {
        None => Ok(()),
        Some(hash) => {
            let actual = sha256_hex(data);
            if str_ci_eq(hash.as_str(), actual.as_str()) {
                Ok(())
            } else {
                Err(
                    NrtmError::Integrity {
                        url: url.to_owned(),
                        expected_hash: hash.as_str().to_owned(),
                        actual_hash: actual,
                    },
                )
            }
        },
    }
}

/// The derived locator of the detached signature for a fetched
/// notification: within the carve-out deployment, the notification locator
/// with a fixed suffix appended; for every other deployment, the
/// well-known filename replaced by a signature-bearing name embedding the
/// content digest of the fetched bytes. A locator without the well-known
/// filename has no signature locator.
pub fn derive_signature_url(unf_url: &str, response_bytes: &Vec<u8>, carveout_host: &str) -> (r:
    Option<String>)
    ensures
        spec_contains_seq(unf_url@, carveout_host@) ==> (r is Some && r.unwrap()@ == unf_url@
            + ".sig"@),
        !spec_contains_seq(unf_url@, carveout_host@) && spec_ends_with(
            unf_url@,
            "update-notification-file.json"@,
        ) ==> (r is Some && r.unwrap()@ == unf_url@.subrange(
            0,
            unf_url@.len() - "update-notification-file.json"@.len(),
        ) + "update-notification-file-signature-"@ + sha256_hex_of(response_bytes@) + ".sig"@),
        !spec_contains_seq(unf_url@, carveout_host@) && !spec_ends_with(
            unf_url@,
            "update-notification-file.json"@,
        ) ==> r is None,
{
    if str_contains(unf_url, carveout_host) {
        let mut out = unf_url.to_owned();
        out.append(".sig");
        return Some(out);
    }
    let well_known = "update-notification-file.json";
    if !str_ends_with(unf_url, well_known) {
        return None;
    }
    let digest = sha256_hex(response_bytes);
    let n = unf_url.unicode_len();
    let m = well_known.unicode_len();
    let mut out = unf_url.substring_char(0, n - m).to_owned();
    out.append("update-notification-file-signature-");
    out.append(digest.as_str());
    out.append(".sig");
    Some(out)
}

} // verus!
