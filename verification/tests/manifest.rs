use agentshield::manifest::{canonical_manifest, write_manifest};
use agentshield::{sign_c2pa_manifest, sign_c2pa_manifest_with_key};
use base64::Engine;
use ed25519_dalek::{Signature, SigningKey, Verifier, VerifyingKey};

const HELLO_SHA256: &str = "2cf24dba5fb0a30e26e83b2ac5b9e29e1b161e5c1fa7425e73043362938b9824";

fn field(json: &serde_json::Value, name: &str) -> String {
    json.get(name).and_then(|v| v.as_str()).expect("a string member").to_string()
}

fn decode(text: &str) -> Vec<u8> {
    base64::engine::general_purpose::STANDARD.decode(text).expect("base64")
}

fn check_manifest(text: &str, content_hash: &str, author_id: &str) -> [u8; 32] {
    let json: serde_json::Value = serde_json::from_str(text).expect("the manifest is JSON");
    assert_eq!(json.as_object().unwrap().len(), 5);
    assert_eq!(field(&json, "algo"), "ed25519");
    assert_eq!(field(&json, "manifest_version"), "c2pa.v1.demo");
    assert_eq!(field(&json, "content_hash"), content_hash);

    let public: [u8; 32] = decode(&field(&json, "public_key")).try_into().expect("32 bytes");
    let signature: [u8; 64] = decode(&field(&json, "signature")).try_into().expect("64 bytes");
    let key = VerifyingKey::from_bytes(&public).expect("a verifying key");
    let signed = format!("{}:{}:AgentShield-C2PA-v1", author_id, content_hash);
    key.verify(signed.as_bytes(), &Signature::from_bytes(&signature))
        .expect("the signature verifies");
    public
}

#[test]
fn manifest_for_hello_by_alice() {
    let text = sign_c2pa_manifest("hello", "alice");
    check_manifest(&text, HELLO_SHA256, "alice");
}

#[test]
fn each_manifest_has_a_key_of_its_own() {
    let first = check_manifest(&sign_c2pa_manifest("hello", "alice"), HELLO_SHA256, "alice");
    let second = check_manifest(&sign_c2pa_manifest("hello", "alice"), HELLO_SHA256, "alice");
    assert_ne!(first, second);
}

#[test]
fn manifest_with_given_key() {
    let secret = [7u8; 32];
    let text = sign_c2pa_manifest_with_key("hello", "alice", &secret);
    let public = check_manifest(&text, HELLO_SHA256, "alice");
    assert_eq!(public, SigningKey::from_bytes(&secret).verifying_key().to_bytes());
    assert_eq!(text, sign_c2pa_manifest_with_key("hello", "alice", &secret));
    assert_ne!(text, sign_c2pa_manifest_with_key("hello", "bob", &secret));
    assert_ne!(text, sign_c2pa_manifest_with_key("hello", "alice", &[8u8; 32]));
}

#[test]
fn manifest_signature_does_not_verify_for_another_author() {
    let text = sign_c2pa_manifest_with_key("hello", "alice", &[9u8; 32]);
    let json: serde_json::Value = serde_json::from_str(&text).unwrap();
    let public: [u8; 32] = decode(&field(&json, "public_key")).try_into().unwrap();
    let signature: [u8; 64] = decode(&field(&json, "signature")).try_into().unwrap();
    let key = VerifyingKey::from_bytes(&public).unwrap();
    let other = format!("mallory:{}:AgentShield-C2PA-v1", HELLO_SHA256);
    assert!(key.verify(other.as_bytes(), &Signature::from_bytes(&signature)).is_err());
}

#[test]
fn manifest_of_empty_and_non_ascii_content() {
    let empty = "e3b0c44298fc1c149afbf4c8996fb92427ae41e4649b934ca495991b7852b855";
    check_manifest(&sign_c2pa_manifest("", ""), empty, "");
    let secret = [1u8; 32];
    let text = sign_c2pa_manifest_with_key("gr\u{fc}\u{df}e \u{4e16}\u{754c}", "J\u{f6}rg", &secret);
    let json: serde_json::Value = serde_json::from_str(&text).unwrap();
    let hash = field(&json, "content_hash");
    assert_eq!(hash.len(), 64);
    assert!(hash.chars().all(|c| c.is_ascii_digit() || ('a'..='f').contains(&c)));
    check_manifest(&text, &hash, "J\u{f6}rg");
}

#[test]
fn canonical_text_joins_with_colons() {
    assert_eq!(
        canonical_manifest("alice", HELLO_SHA256),
        format!("alice:{}:AgentShield-C2PA-v1", HELLO_SHA256)
    );
    assert_eq!(canonical_manifest("", ""), "::AgentShield-C2PA-v1");
}

#[test]
fn manifest_text_layout() {
    let text = write_manifest("00ff", b"foo", b"f");
    let expected = "{\n            \"content_hash\": \"00ff\",\n            \"signature\": \"Zm9v\",\n            \"public_key\": \"Zg==\",\n            \"algo\": \"ed25519\",\n            \"manifest_version\": \"c2pa.v1.demo\"\n        }";
    assert_eq!(text, expected);
}
