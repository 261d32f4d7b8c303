//! Byte-exact insertion of a payload into a PNG or JPEG container.
//!
//! A PNG file receives one `tEXt` chunk directly behind its signature, a JPEG
//! file one comment segment directly behind its start-of-image marker. Every
//! other byte of the file is copied as it is.

use vstd::prelude::*;
use vstd::slice::slice_subrange;

verus! {

/// The container formats that are told apart by their leading bytes.
#[derive(Clone, Copy, Debug, PartialEq, Eq, Structural)]
pub enum ImageFormat {
    Png,
    Jpeg,
    Unknown,
}

/// Why a payload could not be embedded.
#[derive(Clone, Copy, Debug, PartialEq, Eq, Structural)]
pub enum EmbedError {
    /// Keyword, separator and payload together do not fit the 32-bit length
    /// field of a PNG chunk.
    PayloadTooLarge,
}

/// Length of the PNG signature.
pub const PNG_SIGNATURE_LEN: usize = 8;

/// Length of the JPEG start-of-image marker.
pub const JPEG_SOI_LEN: usize = 2;

/// Bytes of chunk data in front of the payload: the keyword and its
/// terminating zero byte.
pub const KEYWORD_OVERHEAD: usize = 17;

/// Payloads of this many bytes or more are left out of a JPEG file.
pub const JPEG_PAYLOAD_LIMIT: usize = 65500;

/// The eight bytes every PNG file starts with.
pub open spec fn png_signature() -> Seq<u8> {
    seq![0x89u8, 0x50u8, 0x4Eu8, 0x47u8, 0x0Du8, 0x0Au8, 0x1Au8, 0x0Au8]
}

/// The two bytes every JPEG file starts with.
pub open spec fn jpeg_soi() -> Seq<u8> {
    seq![0xFFu8, 0xD8u8]
}

/// The marker of a JPEG comment segment.
pub open spec fn jpeg_comment_marker() -> Seq<u8> {
    seq![0xFFu8, 0xFEu8]
}

/// The chunk type `tEXt`.
pub open spec fn text_chunk_type() -> Seq<u8> {
    seq![0x74u8, 0x45u8, 0x58u8, 0x74u8]
}

/// The keyword `AgentShield-C2PA` followed by the zero byte that ends it.
pub open spec fn keyword_prefix() -> Seq<u8> {
    seq![
        0x41u8, 0x67u8, 0x65u8, 0x6Eu8, 0x74u8, 0x53u8, 0x68u8, 0x69u8,
        0x65u8, 0x6Cu8, 0x64u8, 0x2Du8, 0x43u8, 0x32u8, 0x50u8, 0x41u8,
        0x00u8,
    ]
}

/// Whether `s` begins with `prefix`.
pub open spec fn has_prefix(s: Seq<u8>, prefix: Seq<u8>) -> bool {
    prefix.len() <= s.len() && s.subrange(0, prefix.len() as int) == prefix
}

/// The format that the leading bytes announce. The PNG signature is looked
/// for first.
pub open spec fn format_of(image: Seq<u8>) -> ImageFormat {
    if has_prefix(image, png_signature()) {
        ImageFormat::Png
    } else if has_prefix(image, jpeg_soi()) {
        ImageFormat::Jpeg
    } else {
        ImageFormat::Unknown
    }
}

/// The two bytes of `x`, most significant first.
pub open spec fn be16(x: u16) -> Seq<u8> {
    seq![(x / 256) as u8, (x % 256) as u8]
}

/// The four bytes of `x`, most significant first.
pub open spec fn be32(x: u32) -> Seq<u8> {
    seq![
        (x / 0x100_0000) as u8,
        ((x / 0x1_0000) % 256) as u8,
        ((x / 0x100) % 256) as u8,
        (x % 256) as u8,
    ]
}

/// The CRC-32 checksum (IEEE 802.3 polynomial) of `data`, as `crc32fast`
/// computes it.
pub uninterp spec fn crc32_ieee(data: Seq<u8>) -> u32;

/// The data of the inserted chunk: keyword, zero byte, payload.
pub open spec fn chunk_data(payload: Seq<u8>) -> Seq<u8> {
    keyword_prefix() + payload
}

/// The whole inserted chunk: length, type, data, checksum over type and data.
pub open spec fn text_chunk(payload: Seq<u8>) -> Seq<u8>
    recommends
        KEYWORD_OVERHEAD + payload.len() <= u32::MAX,
{
    be32((KEYWORD_OVERHEAD + payload.len()) as u32) + text_chunk_type() + chunk_data(payload)
        + be32(crc32_ieee(text_chunk_type() + chunk_data(payload)))
}

/// The inserted comment segment: marker, length of what follows the marker,
/// payload.
pub open spec fn comment_segment(payload: Seq<u8>) -> Seq<u8>
    recommends
        payload.len() < JPEG_PAYLOAD_LIMIT,
{
    jpeg_comment_marker() + be16((payload.len() + 2) as u16) + payload
}

/// What embedding `payload` into `image` gives.
pub open spec fn embedded(image: Seq<u8>, payload: Seq<u8>) -> Result<Seq<u8>, EmbedError> {
    match format_of(image) {
        ImageFormat::Png => if KEYWORD_OVERHEAD + payload.len() > u32::MAX {
            Err(EmbedError::PayloadTooLarge)
        } else {
            Ok(png_signature() + text_chunk(payload) + image.skip(8))
        },
        ImageFormat::Jpeg => if payload.len() < JPEG_PAYLOAD_LIMIT {
            Ok(jpeg_soi() + comment_segment(payload) + image.skip(2))
        } else {
            Ok(image)
        },
        ImageFormat::Unknown => Ok(image),
    }
}

/// Calls `crc32fast::hash`: the result is the CRC-32 (IEEE) checksum of the
/// bytes given.
#[verifier::external_body]
fn crc32(data: &[u8]) -> (sum: u32)
    ensures
        sum == crc32_ieee(data@),
{
    crc32fast::hash(data)
}

fn starts_with(image: &[u8], prefix: &[u8]) -> (r: bool)
    ensures
        r == has_prefix(image@, prefix@),
{
    if prefix.len() > image.len() {
        return false;
    }
    let mut i: usize = 0;
    while i < prefix.len()
        invariant
            i <= prefix.len() <= image.len(),
            forall|j: int| 0 <= j < i ==> image@[j] == prefix@[j],
        decreases prefix.len() - i,
    {
        if image[i] != prefix[i] {
            assert(image@.subrange(0, prefix@.len() as int)[i as int] != prefix@[i as int]);
            return false;
        }
        i += 1;
    }
    assert(image@.subrange(0, prefix@.len() as int) =~= prefix@);
    true
}

/// Tells the container format of `image` from its leading bytes.
pub fn detect_format(image: &[u8]) -> (format: ImageFormat)
    ensures
        format == format_of(image@),
{
    let png: [u8; 8] = [0x89, 0x50, 0x4E, 0x47, 0x0D, 0x0A, 0x1A, 0x0A];
    let soi: [u8; 2] = [0xFF, 0xD8];
    assert(png@ =~= png_signature());
    assert(soi@ =~= jpeg_soi());
    if starts_with(image, png.as_slice()) {
        ImageFormat::Png
    } else if starts_with(image, soi.as_slice()) {
        ImageFormat::Jpeg
    } else {
        ImageFormat::Unknown
    }
}

fn push_all(out: &mut Vec<u8>, bytes: &[u8])
    ensures
        final(out)@ == old(out)@ + bytes@,
{
    let ghost before = out@;
    out.extend_from_slice(bytes);
    assert(out@ =~= before + bytes@);
}

fn push_be16(out: &mut Vec<u8>, x: u16)
    ensures
        final(out)@ == old(out)@ + be16(x),
{
    let ghost before = out@;
    out.push((x / 256) as u8);
    out.push((x % 256) as u8);
    assert(out@ =~= before + be16(x));
}

fn push_be32(out: &mut Vec<u8>, x: u32)
    ensures
        final(out)@ == old(out)@ + be32(x),
{
    let ghost before = out@;
    out.push((x / 0x100_0000) as u8);
    out.push(((x / 0x1_0000) % 256) as u8);
    out.push(((x / 0x100) % 256) as u8);
    out.push((x % 256) as u8);
    assert(out@ =~= before + be32(x));
}

fn embed_png(image: &[u8], payload: &[u8]) -> (r: Result<Vec<u8>, EmbedError>)
    requires
        format_of(image@) == ImageFormat::Png,
    ensures
        match r {
            Ok(out) => embedded(image@, payload@) == Ok::<Seq<u8>, EmbedError>(out@),
            Err(e) => embedded(image@, payload@) == Err::<Seq<u8>, EmbedError>(e),
        },
{
    if payload.len() > 0xFFFF_FFFF - KEYWORD_OVERHEAD {
        return Err(EmbedError::PayloadTooLarge);
    }
    let length: u32 = (payload.len() + KEYWORD_OVERHEAD) as u32;
    let keyword: [u8; 17] = [
        0x41, 0x67, 0x65, 0x6E, 0x74, 0x53, 0x68, 0x69,
        0x65, 0x6C, 0x64, 0x2D, 0x43, 0x32, 0x50, 0x41,
        0x00,
    ];
    let chunk_type: [u8; 4] = [0x74, 0x45, 0x58, 0x74];
    assert(keyword@ =~= keyword_prefix());
    assert(chunk_type@ =~= text_chunk_type());

    let mut out: Vec<u8> = Vec::new();
    push_all(&mut out, slice_subrange(image, 0, PNG_SIGNATURE_LEN));
    push_be32(&mut out, length);
    push_all(&mut out, chunk_type.as_slice());
    push_all(&mut out, keyword.as_slice());
    push_all(&mut out, payload);
    let sum = crc32(slice_subrange(out.as_slice(), 12, out.len()));
    assert(out@.subrange(12, out@.len() as int) =~= text_chunk_type() + chunk_data(payload@));
    push_be32(&mut out, sum);
    push_all(&mut out, slice_subrange(image, PNG_SIGNATURE_LEN, image.len()));
    assert(out@ =~= png_signature() + text_chunk(payload@) + image@.skip(8));
    Ok(out)
}

fn embed_jpeg(image: &[u8], payload: &[u8]) -> (out: Vec<u8>)
    requires
        format_of(image@) == ImageFormat::Jpeg,
    ensures
        embedded(image@, payload@) == Ok::<Seq<u8>, EmbedError>(out@),
{
    let mut out: Vec<u8> = Vec::new();
    push_all(&mut out, slice_subrange(image, 0, JPEG_SOI_LEN));
    if payload.len() < JPEG_PAYLOAD_LIMIT {
        out.push(0xFF);
        out.push(0xFE);
        push_be16(&mut out, (payload.len() + 2) as u16);
        push_all(&mut out, payload);
        assert(out@ =~= jpeg_soi() + comment_segment(payload@));
    }
    push_all(&mut out, slice_subrange(image, JPEG_SOI_LEN, image.len()));
    assert(payload@.len() >= JPEG_PAYLOAD_LIMIT ==> out@ =~= image@);
    assert(payload@.len() < JPEG_PAYLOAD_LIMIT ==> out@ =~= jpeg_soi() + comment_segment(
        payload@,
    ) + image@.skip(2));
    out
}

/// Embeds `payload` into `image` and returns the new file; `image` itself is
/// left as it is.
///
/// A PNG file gets a `tEXt` chunk behind its signature, and the call fails
/// when keyword and payload exceed the chunk's 32-bit length. A JPEG file
/// gets a comment segment behind its start-of-image marker, unless the
/// payload has 65500 bytes or more: then the file is returned without one.
/// Bytes of any other format are returned unchanged.
pub fn embed(image: &[u8], payload: &[u8]) -> (r: Result<Vec<u8>, EmbedError>)
    ensures
        match r {
            Ok(out) => embedded(image@, payload@) == Ok::<Seq<u8>, EmbedError>(out@),
            Err(e) => embedded(image@, payload@) == Err::<Seq<u8>, EmbedError>(e),
        },
{
    match detect_format(image) {
        ImageFormat::Png => embed_png(image, payload),
        ImageFormat::Jpeg => Ok(embed_jpeg(image, payload)),
        ImageFormat::Unknown => {
            let mut out: Vec<u8> = Vec::new();
            push_all(&mut out, image);
            Ok(out)
        },
    }
}

/// Layout of a PNG file after embedding. The output keeps the signature;
/// behind it stands one `tEXt` chunk whose length field counts keyword, zero
/// byte and payload, whose data is exactly those, and whose checksum is the
/// CRC-32 of the chunk's own type and data; behind the chunk every byte that
/// followed the signature in `image` comes again, unchanged and unbroken.
pub proof fn png_embedding_layout(image: Seq<u8>, payload: Seq<u8>)
    requires
        has_prefix(image, png_signature()),
        KEYWORD_OVERHEAD + payload.len() <= u32::MAX,
    ensures
        embedded(image, payload) is Ok,
        ({
            let out = embedded(image, payload)->Ok_0;
            let n = KEYWORD_OVERHEAD + payload.len();
            &&& out.len() == image.len() + n + 12
            &&& out.subrange(0, 8) == png_signature()
            &&& out.subrange(0, 8) == image.subrange(0, 8)
            &&& out.subrange(8, 12) == be32(n as u32)
            &&& out.subrange(12, 16) == text_chunk_type()
            &&& out.subrange(16, 16 + n) == keyword_prefix() + payload
            &&& out.subrange(16 + n, 20 + n) == be32(crc32_ieee(out.subrange(12, 16 + n)))
            &&& out.skip(20 + n) == image.skip(8)
        }),
{
    let out = embedded(image, payload)->Ok_0;
    let n = KEYWORD_OVERHEAD + payload.len();
    let body = text_chunk_type() + chunk_data(payload);
    assert(out.subrange(0, 8) =~= png_signature());
    assert(out.subrange(8, 12) =~= be32(n as u32));
    assert(out.subrange(12, 16) =~= text_chunk_type());
    assert(out.subrange(16, 16 + n) =~= keyword_prefix() + payload);
    assert(out.subrange(12, 16 + n) =~= body);
    assert(out.subrange(16 + n, 20 + n) =~= be32(crc32_ieee(body)));
    assert(out.skip(20 + n) =~= image.skip(8));
}

/// Bytes that start like a JPEG file do not start like a PNG file: the two
/// formats differ in their first byte.
proof fn soi_is_not_png(image: Seq<u8>)
    requires
        has_prefix(image, jpeg_soi()),
    ensures
        format_of(image) == ImageFormat::Jpeg,
{
    assert(image.subrange(0, 2)[0] == 0xFF);
    if has_prefix(image, png_signature()) {
        assert(image.subrange(0, 8)[0] == 0x89);
    }
}

/// Layout of a JPEG file after embedding a payload of fewer than 65500
/// bytes. The output starts with the start-of-image marker; behind it stands
/// a comment segment whose two length bytes, read most significant first,
/// give the payload's length plus two, and whose content is the payload;
/// behind the segment every byte that followed the marker in `image` comes
/// again, unchanged.
pub proof fn jpeg_embedding_layout(image: Seq<u8>, payload: Seq<u8>)
    requires
        has_prefix(image, jpeg_soi()),
        payload.len() < JPEG_PAYLOAD_LIMIT,
    ensures
        embedded(image, payload) is Ok,
        ({
            let out = embedded(image, payload)->Ok_0;
            let n = payload.len() as int;
            &&& out.len() == image.len() + n + 4
            &&& out.subrange(0, 2) == jpeg_soi()
            &&& out.subrange(2, 4) == jpeg_comment_marker()
            &&& out[4] * 256 + out[5] == n + 2
            &&& out.subrange(6, 6 + n) == payload
            &&& out.skip(6 + n) == image.skip(2)
        }),
{
    soi_is_not_png(image);
    let out = embedded(image, payload)->Ok_0;
    let n = payload.len() as int;
    assert(out.subrange(0, 2) =~= jpeg_soi());
    assert(out.subrange(2, 4) =~= jpeg_comment_marker());
    assert(out.subrange(6, 6 + n) =~= payload);
    assert(out.skip(6 + n) =~= image.skip(2));
}

/// A JPEG file comes back byte for byte when the payload has 65500 bytes or
/// more: no segment is inserted, and the call still succeeds.
pub proof fn jpeg_oversized_payload_left_out(image: Seq<u8>, payload: Seq<u8>)
    requires
        has_prefix(image, jpeg_soi()),
        payload.len() >= JPEG_PAYLOAD_LIMIT,
    ensures
        embedded(image, payload) == Ok::<Seq<u8>, EmbedError>(image),
        image == jpeg_soi() + image.skip(2),
{
    soi_is_not_png(image);
    assert(image =~= jpeg_soi() + image.skip(2));
}

/// Bytes that are neither PNG nor JPEG come back unchanged, whatever the
/// payload.
pub proof fn unknown_format_unchanged(image: Seq<u8>, payload: Seq<u8>)
    requires
        !has_prefix(image, png_signature()),
        !has_prefix(image, jpeg_soi()),
    ensures
        embedded(image, payload) == Ok::<Seq<u8>, EmbedError>(image),
{
}

} // verus!
