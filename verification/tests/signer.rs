use agentshield::signer::frame_payload;
use agentshield::{sign_c2pa_image_fast, sign_for_embedding, SignError};
use base64::Engine;
use rsa::pkcs1::EncodeRsaPrivateKey;
use rsa::pkcs8::{EncodePrivateKey, LineEnding};
use rsa::{BigUint, Pkcs1v15Sign, RsaPrivateKey, RsaPublicKey};
use sha2::{Digest, Sha256};

const P512: &str = "e4bc4c33255c695151d33d5a53b3c16f2297a2f753b21d25bab4453d4386cb881ddbd0e675cbb0ec63739ca05a66843eee5a47c0a5adb5a7061cd8240c45adb5";
const Q512: &str = "f143c05a97e1439dd8a05e60c69fece9eeb31826a3308d5aa7c19d05b3df08e735753468d9ce217e725bff40d36c58f74b3c4bba76dd054a7ea3979baae1cb41";
const P128: &str = "c7a12c817bcfe51585e577489828d461";
const Q128: &str = "c5bf623b59964a3845dbeacce986add1";

const PNG_SIGNATURE: [u8; 8] = [0x89, b'P', b'N', b'G', 0x0D, 0x0A, 0x1A, 0x0A];

fn key_of(p: &str, q: &str) -> RsaPrivateKey {
    let p = BigUint::parse_bytes(p.as_bytes(), 16).unwrap();
    let q = BigUint::parse_bytes(q.as_bytes(), 16).unwrap();
    RsaPrivateKey::from_p_q(p, q, BigUint::from(65537u32)).expect("a key")
}

fn pem_of(key: &RsaPrivateKey) -> String {
    key.to_pkcs8_pem(LineEnding::LF).expect("PEM").to_string()
}

fn signing_key() -> RsaPrivateKey {
    key_of(P512, Q512)
}

fn check_payload(payload: &[u8], manifest_json: &str, manifest: serde_json::Value, key: &RsaPrivateKey) {
    let json: serde_json::Value = serde_json::from_slice(payload).expect("the payload is JSON");
    let object = json.as_object().expect("an object");
    assert_eq!(object.len(), 3);
    assert_eq!(object["algo"], serde_json::Value::from("rsa-sha256-rust-zero-copy"));
    assert_eq!(object["manifest"], manifest);
    let signature = base64::engine::general_purpose::STANDARD
        .decode(object["signature"].as_str().unwrap())
        .expect("base64");
    let digest = Sha256::digest(manifest_json.as_bytes());
    RsaPublicKey::from(key)
        .verify(Pkcs1v15Sign::new::<Sha256>(), &digest, &signature)
        .expect("the signature verifies");
}

#[test]
fn payload_carries_manifest_and_verifiable_signature() {
    let key = signing_key();
    let manifest_json = "{\"title\": \"photo\", \"claims\": [1, 2.5, true, null]}";
    let payload = sign_for_embedding(manifest_json, &pem_of(&key)).unwrap();
    let manifest: serde_json::Value = serde_json::from_str(manifest_json).unwrap();
    check_payload(&payload, manifest_json, manifest, &key);
}

#[test]
fn payload_text_is_compact_with_members_in_order() {
    let key = signing_key();
    let manifest_json = " { \"b\" : 1,\n \"a\" : [ true , null ] } ";
    let payload = sign_for_embedding(manifest_json, &pem_of(&key)).unwrap();
    let digest = Sha256::digest(manifest_json.as_bytes());
    let signature = key.sign(Pkcs1v15Sign::new::<Sha256>(), &digest).unwrap();
    let expected = format!(
        "{{\"algo\":\"rsa-sha256-rust-zero-copy\",\"manifest\":{{\"a\":[true,null],\"b\":1}},\"signature\":\"{}\"}}",
        base64::engine::general_purpose::STANDARD.encode(&signature)
    );
    assert_eq!(String::from_utf8(payload).unwrap(), expected);
}

#[test]
fn manifest_that_is_not_json_is_signed_and_written_as_empty_object() {
    let key = signing_key();
    for manifest_json in ["not json", "", "{\"open\": ", "\u{4e16}\u{754c}"] {
        let payload = sign_for_embedding(manifest_json, &pem_of(&key)).unwrap();
        let empty = serde_json::Value::Object(serde_json::Map::new());
        check_payload(&payload, manifest_json, empty, &key);
        assert!(String::from_utf8(payload).unwrap().contains("\"manifest\":{},"));
    }
}

#[test]
fn signing_is_repeatable() {
    let pem = pem_of(&signing_key());
    let first = sign_for_embedding("{\"a\":1}", &pem).unwrap();
    let second = sign_for_embedding("{\"a\":1}", &pem).unwrap();
    assert_eq!(first, second);
    let other = sign_for_embedding("{\"a\":2}", &pem).unwrap();
    assert_ne!(first, other);
}

#[test]
fn text_that_is_no_key_gives_invalid_key() {
    let pkcs1 = signing_key().to_pkcs1_pem(LineEnding::LF).unwrap().to_string();
    let truncated: String = pem_of(&signing_key()).chars().take(120).collect();
    for pem in ["", "not a key", pkcs1.as_str(), truncated.as_str()] {
        assert_eq!(sign_for_embedding("{}", pem), Err(SignError::InvalidKey));
        assert_eq!(
            sign_c2pa_image_fast(&PNG_SIGNATURE, pem, "{}"),
            Err(SignError::InvalidKey)
        );
    }
}

#[test]
fn key_too_short_for_the_digest_gives_signing_failure() {
    let pem = pem_of(&key_of(P128, Q128));
    assert_eq!(sign_for_embedding("{}", &pem), Err(SignError::SigningFailure));
    assert_eq!(
        sign_c2pa_image_fast(b"GIF89a", &pem, "{}"),
        Err(SignError::SigningFailure)
    );
}

#[test]
fn key_errors_come_whatever_the_image_is() {
    for image in [&b""[..], &b"GIF89a"[..], &[0xFF, 0xD8, 0xFF, 0xD9][..], &PNG_SIGNATURE[..]] {
        assert_eq!(
            sign_c2pa_image_fast(image, "no key", "{}"),
            Err(SignError::InvalidKey)
        );
    }
}

#[test]
fn png_image_gets_signed_chunk() {
    let key = signing_key();
    let pem = pem_of(&key);
    let manifest_json = "{\"author\":\"alice\"}";
    let mut image = PNG_SIGNATURE.to_vec();
    image.extend_from_slice(b"\x00\x00\x00\x00IEND\xae\x42\x60\x82");
    let out = sign_c2pa_image_fast(&image, &pem, manifest_json).unwrap();
    let payload = sign_for_embedding(manifest_json, &pem).unwrap();

    assert_eq!(&out[..8], &PNG_SIGNATURE);
    let length = u32::from_be_bytes([out[8], out[9], out[10], out[11]]) as usize;
    assert_eq!(length, 17 + payload.len());
    assert_eq!(&out[12..16], b"tEXt");
    assert_eq!(&out[16..33], b"AgentShield-C2PA\0");
    assert_eq!(&out[33..16 + length], &payload[..]);
    let stored = u32::from_be_bytes([
        out[16 + length],
        out[17 + length],
        out[18 + length],
        out[19 + length],
    ]);
    assert_eq!(stored, crc32fast::hash(&out[12..16 + length]));
    assert_eq!(&out[20 + length..], &image[8..]);

    let manifest: serde_json::Value = serde_json::from_str(manifest_json).unwrap();
    check_payload(&out[33..16 + length], manifest_json, manifest, &key);
}

#[test]
fn jpeg_image_gets_signed_comment() {
    let key = signing_key();
    let pem = pem_of(&key);
    let manifest_json = "{\"author\":\"alice\"}";
    let image = vec![0xFF, 0xD8, 0xFF, 0xDB, 0x00, 0x43, 0xFF, 0xD9];
    let out = sign_c2pa_image_fast(&image, &pem, manifest_json).unwrap();
    let payload = sign_for_embedding(manifest_json, &pem).unwrap();

    assert_eq!(&out[..4], &[0xFF, 0xD8, 0xFF, 0xFE]);
    assert_eq!(u16::from_be_bytes([out[4], out[5]]) as usize, payload.len() + 2);
    assert_eq!(&out[6..6 + payload.len()], &payload[..]);
    assert_eq!(&out[6 + payload.len()..], &image[2..]);
}

#[test]
fn jpeg_image_with_oversized_payload_comes_back_unchanged() {
    let pem = pem_of(&signing_key());
    let manifest_json = format!("{{\"note\":\"{}\"}}", "x".repeat(70_000));
    let payload = sign_for_embedding(&manifest_json, &pem).unwrap();
    assert!(payload.len() >= 65500);

    let jpeg = vec![0xFF, 0xD8, 0xFF, 0xDB, 0x00, 0x43, 0xFF, 0xD9];
    assert_eq!(sign_c2pa_image_fast(&jpeg, &pem, &manifest_json), Ok(jpeg.clone()));

    // A PNG chunk has room for it.
    let out = sign_c2pa_image_fast(&PNG_SIGNATURE, &pem, &manifest_json).unwrap();
    assert_eq!(out.len(), 8 + 12 + 17 + payload.len());
}

#[test]
fn other_image_formats_come_back_unchanged() {
    let pem = pem_of(&signing_key());
    for image in [&b""[..], &b"GIF89a"[..], &b"RIFF....WEBP"[..]] {
        assert_eq!(sign_c2pa_image_fast(image, &pem, "{}"), Ok(image.to_vec()));
    }
}

#[test]
fn framing_of_given_manifest_and_signature() {
    assert_eq!(
        frame_payload(&Some("{\"a\":1}".to_string()), b"foo"),
        "{\"algo\":\"rsa-sha256-rust-zero-copy\",\"manifest\":{\"a\":1},\"signature\":\"Zm9v\"}"
    );
    assert_eq!(
        frame_payload(&None, b"f"),
        "{\"algo\":\"rsa-sha256-rust-zero-copy\",\"manifest\":{},\"signature\":\"Zg==\"}"
    );
    assert_eq!(
        frame_payload(&Some("null".to_string()), b""),
        "{\"algo\":\"rsa-sha256-rust-zero-copy\",\"manifest\":null,\"signature\":\"\"}"
    );
}

#[test]
fn every_error_has_a_message() {
    assert_eq!(
        SignError::InvalidKey.message(),
        "Invalid Key: not a PKCS#8 PEM RSA private key"
    );
    assert_eq!(
        SignError::SigningFailure.message(),
        "Signing failed: the key cannot sign a SHA-256 digest"
    );
    assert_eq!(
        SignError::PayloadTooLarge.message(),
        "Payload too large: it does not fit a PNG chunk"
    );
    assert_eq!(SignError::MalformedContainer.message(), "Malformed container");
}
