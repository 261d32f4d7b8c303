//! RSA-signed manifests for embedding into images.
//!
//! The manifest text is hashed with SHA-256 exactly as it was handed in, the
//! digest is signed with RSASSA-PKCS1-v1_5, and manifest and signature are
//! framed as one JSON object, which `embed` then writes into the image.

use crate::container::{embed, embedded, EmbedError};
use crate::digest::{sha256, sha256_digest};
use crate::encoding::{base64, base64_encode};
use rsa::pkcs8::DecodePrivateKey;
use rsa::RsaPrivateKey;
use serde_json::Value;
use vstd::prelude::*;
use vstd::slice::slice_to_vec;
use vstd::string::*;
use vstd::utf8::encode_utf8;

verus! {

/// `rsa::RsaPrivateKey`. Nothing is known of what is inside.
#[verifier::external_type_specification]
#[verifier::external_body]
pub struct ExRsaPrivateKey(rsa::RsaPrivateKey);

/// `pkcs8::Error`, what reading a key reports.
#[verifier::external_type_specification]
#[verifier::external_body]
pub struct ExPkcs8Error(rsa::pkcs8::Error);

/// `rsa::Error`, what signing reports.
#[verifier::external_type_specification]
#[verifier::external_body]
pub struct ExRsaError(rsa::Error);

/// `serde_json::Value`, a parsed JSON text. Nothing is known of what is inside.
#[verifier::external_type_specification]
#[verifier::external_body]
pub struct ExJsonValue(serde_json::Value);

/// `serde_json::Error`, what parsing reports.
#[verifier::external_type_specification]
#[verifier::external_body]
pub struct ExJsonError(serde_json::Error);

/// Why signing or embedding failed.
#[derive(Clone, Copy, Debug, PartialEq, Eq, Structural)]
pub enum SignError {
    /// The key text is not a PKCS#8 PEM encoding of an RSA private key.
    InvalidKey,
    /// The key refused the digest, as one does that is too short for it.
    SigningFailure,
    /// The payload does not fit the length field of a PNG chunk.
    PayloadTooLarge,
    /// Kept for a stricter reading of containers; nothing returns it.
    MalformedContainer,
}

impl SignError {
    /// The text of the message that describes the error.
    pub open spec fn message_text(self) -> Seq<char> {
        match self {
            SignError::InvalidKey => "Invalid Key: not a PKCS#8 PEM RSA private key"@,
            SignError::SigningFailure => "Signing failed: the key cannot sign a SHA-256 digest"@,
            SignError::PayloadTooLarge => "Payload too large: it does not fit a PNG chunk"@,
            SignError::MalformedContainer => "Malformed container"@,
        }
    }

    /// A message for the caller to show.
    pub fn message(&self) -> (text: String)
        ensures
            text@ == self.message_text(),
    {
        match self {
            SignError::InvalidKey => String::from_str(
                "Invalid Key: not a PKCS#8 PEM RSA private key",
            ),
            SignError::SigningFailure => String::from_str(
                "Signing failed: the key cannot sign a SHA-256 digest",
            ),
            SignError::PayloadTooLarge => String::from_str(
                "Payload too large: it does not fit a PNG chunk",
            ),
            SignError::MalformedContainer => String::from_str("Malformed container"),
        }
    }
}

/// The key that `RsaPrivateKey::from_pkcs8_pem` reads out of a text, or
/// `None` where it reports an error.
pub uninterp spec fn rsa_key_of(pem: Seq<char>) -> Option<RsaPrivateKey>;

/// The signature that `RsaPrivateKey::sign` gives for a SHA-256 digest under
/// PKCS#1 v1.5 padding, or `None` where it reports an error.
pub uninterp spec fn rsa_signature(key: RsaPrivateKey, digest: Seq<u8>) -> Option<Seq<u8>>;

/// The value that `serde_json::from_str` reads out of a text, or `None`
/// where it reports an error.
pub uninterp spec fn json_value(text: Seq<char>) -> Option<Value>;

/// The compact text that a JSON value is displayed as.
pub uninterp spec fn json_text(value: Value) -> Seq<char>;

/// The manifest as it goes into the payload: written compactly where it is
/// JSON, `None` where it is not.
pub open spec fn manifest_fragment(manifest_json: Seq<char>) -> Option<Seq<char>> {
    match json_value(manifest_json) {
        Some(value) => Some(json_text(value)),
        None => None,
    }
}

/// The payload: a JSON object with the members `algo`, `manifest` and
/// `signature`. A missing manifest is written as the empty object; the
/// signature is written in base64.
pub open spec fn payload_text(manifest: Option<Seq<char>>, signature: Seq<u8>) -> Seq<char> {
    "{\"algo\":\"rsa-sha256-rust-zero-copy\",\"manifest\":"@ + (match manifest {
        Some(text) => text,
        None => "{}"@,
    }) + ",\"signature\":\""@ + base64(signature) + "\"}"@
}

/// What signing a manifest gives: the payload's bytes, or the error.
pub open spec fn signed_payload(manifest_json: Seq<char>, pem: Seq<char>) -> Result<
    Seq<u8>,
    SignError,
> {
    match rsa_key_of(pem) {
        None => Err(SignError::InvalidKey),
        Some(key) => match rsa_signature(key, sha256_digest(encode_utf8(manifest_json))) {
            None => Err(SignError::SigningFailure),
            Some(signature) => Ok(
                encode_utf8(payload_text(manifest_fragment(manifest_json), signature)),
            ),
        },
    }
}

/// What signing a manifest and embedding it into an image gives.
pub open spec fn signed_image(image: Seq<u8>, pem: Seq<char>, manifest_json: Seq<char>) -> Result<
    Seq<u8>,
    SignError,
> {
    match signed_payload(manifest_json, pem) {
        Err(e) => Err(e),
        Ok(payload) => match embedded(image, payload) {
            Ok(out) => Ok(out),
            Err(EmbedError::PayloadTooLarge) => Err(SignError::PayloadTooLarge),
        },
    }
}

/// Calls `RsaPrivateKey::from_pkcs8_pem`. States that the outcome is fixed
/// by the text: the same text gives the same key, or fails, every time.
#[verifier::external_body]
fn parse_private_key(pem: &str) -> (r: Result<RsaPrivateKey, rsa::pkcs8::Error>)
    ensures
        match r {
            Ok(key) => rsa_key_of(pem@) == Some(key),
            Err(_) => rsa_key_of(pem@).is_none(),
        },
{
    RsaPrivateKey::from_pkcs8_pem(pem)
}

/// Calls `RsaPrivateKey::sign` with `Pkcs1v15Sign::new::<Sha256>()`. Without
/// a random source the signature is fixed by key and digest.
#[verifier::external_body]
fn sign_digest(key: &RsaPrivateKey, digest: &[u8]) -> (r: Result<Vec<u8>, rsa::Error>)
    ensures
        match r {
            Ok(signature) => rsa_signature(*key, digest@) == Some(signature@),
            Err(_) => rsa_signature(*key, digest@).is_none(),
        },
{
    key.sign(rsa::Pkcs1v15Sign::new::<sha2::Sha256>(), digest)
}

/// Calls `serde_json::from_str` for a `Value`.
#[verifier::external_body]
fn parse_json(text: &str) -> (r: Result<Value, serde_json::Error>)
    ensures
        match r {
            Ok(value) => json_value(text@) == Some(value),
            Err(_) => json_value(text@).is_none(),
        },
{
    serde_json::from_str::<Value>(text)
}

/// Calls `to_string` on a `Value`, which displays it in compact form.
#[verifier::external_body]
fn compact_json(value: &Value) -> (text: String)
    ensures
        text@ == json_text(*value),
{
    value.to_string()
}

/// Frames manifest and signature as the payload text.
pub fn frame_payload(manifest: &Option<String>, signature: &[u8]) -> (text: String)
    ensures
        text@ == payload_text(
            match manifest {
                Some(m) => Some(m@),
                None => None,
            },
            signature@,
        ),
{
    let mut text = String::from_str("{\"algo\":\"rsa-sha256-rust-zero-copy\",\"manifest\":");
    match manifest {
        Some(m) => text.append(m.as_str()),
        None => text.append("{}"),
    }
    text.append(",\"signature\":\"");
    let encoded = base64_encode(signature);
    text.append(encoded.as_str());
    text.append("\"}");
    text
}

/// Signs `manifest_json` with the RSA key in `private_key_pem` and returns
/// the payload that carries manifest and signature.
///
/// Fails with `InvalidKey` exactly when the key text cannot be read, and
/// with `SigningFailure` exactly when the key can be read and refuses the
/// digest. The digest is taken over the manifest's bytes as they are; a
/// manifest that is not JSON is signed all the same and written into the
/// payload as the empty object.
pub fn sign_for_embedding(manifest_json: &str, private_key_pem: &str) -> (r: Result<
    Vec<u8>,
    SignError,
>)
    ensures
        match r {
            Ok(payload) => signed_payload(manifest_json@, private_key_pem@) == Ok::<
                Seq<u8>,
                SignError,
            >(payload@),
            Err(e) => signed_payload(manifest_json@, private_key_pem@) == Err::<
                Seq<u8>,
                SignError,
            >(e),
        },
{
    let key = match parse_private_key(private_key_pem) {
        Ok(key) => key,
        Err(_) => {
            return Err(SignError::InvalidKey);
        },
    };
    let digest = sha256(manifest_json.as_bytes());
    let signature = match sign_digest(&key, digest.as_slice()) {
        Ok(signature) => signature,
        Err(_) => {
            return Err(SignError::SigningFailure);
        },
    };
    let manifest = match parse_json(manifest_json) {
        Ok(value) => Some(compact_json(&value)),
        Err(_) => None,
    };
    let text = frame_payload(&manifest, signature.as_slice());
    Ok(slice_to_vec(text.as_str().as_bytes()))
}

/// Signs `manifest_json` and embeds the signed payload into `image_bytes`.
///
/// Key and signature are dealt with first, so their errors come whatever the
/// image is. After that a PNG image fails with `PayloadTooLarge` where the
/// payload exceeds a chunk; a JPEG image whose payload is too long for a
/// segment, and bytes of any other format, come back unchanged.
pub fn sign_c2pa_image_fast(image_bytes: &[u8], private_key_pem: &str, manifest_json: &str) -> (r:
    Result<Vec<u8>, SignError>)
    ensures
        match r {
            Ok(out) => signed_image(image_bytes@, private_key_pem@, manifest_json@) == Ok::<
                Seq<u8>,
                SignError,
            >(out@),
            Err(e) => signed_image(image_bytes@, private_key_pem@, manifest_json@) == Err::<
                Seq<u8>,
                SignError,
            >(e),
        },
{
    let payload = match sign_for_embedding(manifest_json, private_key_pem) {
        Ok(payload) => payload,
        Err(e) => {
            return Err(e);
        },
    };
    match embed(image_bytes, payload.as_slice()) {
        Ok(out) => Ok(out),
        Err(EmbedError::PayloadTooLarge) => Err(SignError::PayloadTooLarge),
    }
}

/// No input makes signing report a malformed container.
pub proof fn malformed_container_never_reported(
    image: Seq<u8>,
    pem: Seq<char>,
    manifest_json: Seq<char>,
)
    ensures
        signed_image(image, pem, manifest_json) != Err::<Seq<u8>, SignError>(
            SignError::MalformedContainer,
        ),
        signed_payload(manifest_json, pem) != Err::<Seq<u8>, SignError>(
            SignError::MalformedContainer,
        ),
{
}

} // verus!
