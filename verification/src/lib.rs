//! Detection and redaction of personal data and secrets in text, and signed
//! provenance manifests that are embedded into PNG and JPEG files without
//! touching the image data.
//!
//! - [`pii`] finds e-mail addresses, phone numbers, IPv4 addresses and card
//!   numbers with four fixed patterns, and replaces them by placeholders.
//! - [`entropy`] reports tokens whose Shannon entropy exceeds 4.5 bits per
//!   character. The comparison is made in whole numbers and is exact;
//!   [`scaled`] and [`bignat`] hold the arithmetic for it.
//! - [`container`] inserts a payload into a PNG or JPEG file and leaves every
//!   other byte where it was.
//! - [`signer`] signs a manifest with an RSA key and embeds it into an image.
//! - [`manifest`] signs a manifest for text with an Ed25519 key made for the
//!   occasion.
//! - [`encoding`] and [`digest`] hold the encodings and the hash that the
//!   signers share.
//!
//! Calls into other crates stand in small functions of their own, each with
//! a comment that says what is taken on trust of the call. Everything else
//! is proved against the contracts that stand with it.

pub mod bignat;
pub mod container;
pub mod digest;
pub mod encoding;
pub mod entropy;
pub mod manifest;
pub mod pii;
pub mod scaled;
pub mod signer;

pub use container::{detect_format, embed, EmbedError, ImageFormat};
pub use pii::{scan_pii_fast, scrub_pii_fast, Category, PatternSet};
pub use entropy::{entropy_exceeds_threshold, scan_entropy_fast};
pub use manifest::{sign_c2pa_manifest, sign_c2pa_manifest_with_key};
pub use signer::{sign_c2pa_image_fast, sign_for_embedding, SignError};
