//! Ed25519-signed manifests for text.
//!
//! Each manifest is signed with a key of its own, made for that one
//! signature. The manifest carries the verifying key; the signing key is not
//! kept.

use crate::digest::{sha256, sha256_digest};
use crate::encoding::{base64, base64_encode, hex_encode, hex_lower};
use ed25519_dalek::Signer;
use vstd::prelude::*;
use vstd::string::*;
use vstd::utf8::encode_utf8;

verus! {

/// The verifying key that belongs to a 32-byte secret key, as
/// `ed25519_dalek` derives it.
pub uninterp spec fn ed25519_verifying_key(secret: Seq<u8>) -> Seq<u8>;

/// The Ed25519 signature of `message` under a 32-byte secret key, as
/// `ed25519_dalek` computes it.
pub uninterp spec fn ed25519_signature(secret: Seq<u8>, message: Seq<u8>) -> Seq<u8>;

/// The text that is signed: author, content hash and a fixed tag, with
/// colons between them.
pub open spec fn canonical_text(author_id: Seq<char>, hash_hex: Seq<char>) -> Seq<char> {
    author_id + ":"@ + hash_hex + ":AgentShield-C2PA-v1"@
}

/// The manifest: a JSON object with the content hash, the signature and the
/// verifying key in base64, the algorithm and the manifest version.
pub open spec fn manifest_document(hash_hex: Seq<char>, signature: Seq<u8>, public_key: Seq<u8>)
    -> Seq<char> {
    "{\n            \"content_hash\": \""@ + hash_hex + "\",\n            \"signature\": \""@
        + base64(signature) + "\",\n            \"public_key\": \""@ + base64(public_key)
        + "\",\n            \"algo\": \"ed25519\",\n            \"manifest_version\": \"c2pa.v1.demo\"\n        }"@
}

/// The hexadecimal SHA-256 hash of a text's UTF-8 bytes.
pub open spec fn content_hash(content: Seq<char>) -> Seq<char> {
    hex_lower(sha256_digest(encode_utf8(content)))
}

/// The manifest of `content` by `author_id`, signed with `secret`. The
/// signature covers the canonical text built from the very hash that the
/// manifest shows.
pub open spec fn text_manifest(content: Seq<char>, author_id: Seq<char>, secret: Seq<u8>) -> Seq<
    char,
> {
    let hash_hex = content_hash(content);
    manifest_document(
        hash_hex,
        ed25519_signature(secret, encode_utf8(canonical_text(author_id, hash_hex))),
        ed25519_verifying_key(secret),
    )
}

/// Calls `SigningKey::generate` with the operating system's random source
/// and takes the secret key's bytes. Nothing is known of them beforehand.
/// The call does not return where the system has no random bytes to give.
#[verifier::external_body]
fn fresh_secret() -> (secret: [u8; 32]) {
    ed25519_dalek::SigningKey::generate(&mut rand::rngs::OsRng).to_bytes()
}

/// Calls `SigningKey::verifying_key` on the key made of `secret` and takes
/// the verifying key's bytes.
#[verifier::external_body]
fn verifying_key(secret: &[u8; 32]) -> (public: [u8; 32])
    ensures
        public@ == ed25519_verifying_key(secret@),
{
    ed25519_dalek::SigningKey::from_bytes(secret).verifying_key().to_bytes()
}

/// Calls `Signer::sign` on the key made of `secret` and takes the
/// signature's bytes. Ed25519 signatures are fixed by key and message.
#[verifier::external_body]
fn sign_message(secret: &[u8; 32], message: &[u8]) -> (signature: [u8; 64])
    ensures
        signature@ == ed25519_signature(secret@, message@),
{
    ed25519_dalek::SigningKey::from_bytes(secret).sign(message).to_bytes()
}

/// Builds the text that is signed.
pub fn canonical_manifest(author_id: &str, hash_hex: &str) -> (text: String)
    ensures
        text@ == canonical_text(author_id@, hash_hex@),
{
    let mut text = String::from_str(author_id);
    text.append(":");
    text.append(hash_hex);
    text.append(":AgentShield-C2PA-v1");
    text
}

/// Writes the manifest for a content hash, a signature and a verifying key.
pub fn write_manifest(hash_hex: &str, signature: &[u8], public_key: &[u8]) -> (text: String)
    ensures
        text@ == manifest_document(hash_hex@, signature@, public_key@),
{
    let mut text = String::from_str("{\n            \"content_hash\": \"");
    text.append(hash_hex);
    text.append("\",\n            \"signature\": \"");
    let signature_b64 = base64_encode(signature);
    text.append(signature_b64.as_str());
    text.append("\",\n            \"public_key\": \"");
    let public_key_b64 = base64_encode(public_key);
    text.append(public_key_b64.as_str());
    text.append(
        "\",\n            \"algo\": \"ed25519\",\n            \"manifest_version\": \"c2pa.v1.demo\"\n        }",
    );
    text
}

/// Signs a manifest for `content` by `author_id` with the given secret key.
pub fn sign_c2pa_manifest_with_key(content: &str, author_id: &str, secret: &[u8; 32]) -> (text:
    String)
    ensures
        text@ == text_manifest(content@, author_id@, secret@),
{
    let digest = sha256(content.as_bytes());
    let hash_hex = hex_encode(digest.as_slice());
    let canonical = canonical_manifest(author_id, hash_hex.as_str());
    let signature = sign_message(secret, canonical.as_str().as_bytes());
    let public_key = verifying_key(secret);
    write_manifest(hash_hex.as_str(), signature.as_slice(), public_key.as_slice())
}

/// Signs a manifest for `content` by `author_id` with a fresh key, which is
/// dropped afterwards: the verifying key in the manifest is all that is left
/// of it, so whoever wants to verify later has to keep the manifest.
///
/// The key comes from the operating system's random source. Where that
/// source fails the process ends; the call returns no error.
pub fn sign_c2pa_manifest(content: &str, author_id: &str) -> (text: String)
    ensures
        exists|secret: Seq<u8>|
            secret.len() == 32 && text@ == #[trigger] text_manifest(content@, author_id@, secret),
{
    let secret = fresh_secret();
    let text = sign_c2pa_manifest_with_key(content, author_id, &secret);
    assert(text@ == text_manifest(content@, author_id@, secret@));
    text
}

} // verus!
