//! Text encodings of byte strings: lower-case hexadecimal and padded base64.

use base64::Engine;
use vstd::prelude::*;
use vstd::slice::slice_subrange;
use vstd::string::*;

verus! {

/// The hexadecimal digit for `v`, for `v` below sixteen.
pub open spec fn hex_digit(v: int) -> char {
    "0123456789abcdef"@[v]
}

/// Two lower-case digits for each byte, the high half first.
pub open spec fn hex_lower(data: Seq<u8>) -> Seq<char> {
    Seq::new(
        2 * data.len(),
        |i: int|
            if i % 2 == 0 {
                hex_digit(data[i / 2] as int / 16)
            } else {
                hex_digit(data[i / 2] as int % 16)
            },
    )
}

/// The base64 symbol for `v`, for `v` below sixty-four.
pub open spec fn base64_symbol(v: int) -> char {
    "ABCDEFGHIJKLMNOPQRSTUVWXYZabcdefghijklmnopqrstuvwxyz0123456789+/"@[v]
}

/// Base64 with the standard alphabet: four symbols for every three bytes,
/// the last group filled up with `=`.
pub open spec fn base64(data: Seq<u8>) -> Seq<char>
    decreases data.len(),
{
    if data.len() == 0 {
        Seq::empty()
    } else if data.len() == 1 {
        seq![
            base64_symbol(data[0] as int / 4),
            base64_symbol((data[0] as int % 4) * 16),
            '=',
            '=',
        ]
    } else if data.len() == 2 {
        seq![
            base64_symbol(data[0] as int / 4),
            base64_symbol((data[0] as int % 4) * 16 + data[1] as int / 16),
            base64_symbol((data[1] as int % 16) * 4),
            '=',
        ]
    } else {
        seq![
            base64_symbol(data[0] as int / 4),
            base64_symbol((data[0] as int % 4) * 16 + data[1] as int / 16),
            base64_symbol((data[1] as int % 16) * 4 + data[2] as int / 64),
            base64_symbol(data[2] as int % 64),
        ] + base64(data.skip(3))
    }
}

/// Bytes that are handed to the encoder in one call: a multiple of three, so
/// that the pieces of a long input encode independently.
pub const BASE64_CHUNK: usize = 3145728;

/// Behind a whole number of three-byte groups the encoding starts afresh.
pub proof fn base64_of_concat(a: Seq<u8>, b: Seq<u8>)
    requires
        a.len() % 3 == 0,
    ensures
        base64(a + b) == base64(a) + base64(b),
    decreases a.len(),
{
    if a.len() == 0 {
        assert(a + b =~= b);
        assert(base64(a) + base64(b) =~= base64(b));
    } else {
        let ab = a + b;
        assert(ab.skip(3) =~= a.skip(3) + b);
        base64_of_concat(a.skip(3), b);
        assert(ab[0] == a[0] && ab[1] == a[1] && ab[2] == a[2]);
        assert(base64(ab) =~= base64(a) + base64(b));
    }
}

/// Calls `hex::encode`, which writes each byte as two digits out of
/// `0123456789abcdef`, the high half first.
#[verifier::external_body]
pub(crate) fn hex_encode(data: &[u8]) -> (text: String)
    requires
        2 * data@.len() <= usize::MAX,
    ensures
        text@ == hex_lower(data@),
{
    hex::encode(data)
}

/// Calls `Engine::encode` on base64's `STANDARD` engine: the alphabet of
/// RFC 4648 with padding. The engine panics where the encoded length
/// overflows; such inputs are left out.
#[verifier::external_body]
fn base64_encode_chunk(data: &[u8]) -> (text: String)
    requires
        data@.len() / 3 * 4 + 4 <= usize::MAX,
    ensures
        text@ == base64(data@),
{
    base64::engine::general_purpose::STANDARD.encode(data)
}

/// Encodes `data` in base64, whatever its length.
pub fn base64_encode(data: &[u8]) -> (text: String)
    ensures
        text@ == base64(data@),
{
    let mut text = String::new();
    let mut done: usize = 0;
    assert(data@.take(0) =~= Seq::<u8>::empty());
    while data.len() - done > BASE64_CHUNK
        invariant
            done <= data@.len(),
            done % 3 == 0,
            text@ == base64(data@.take(done as int)),
        decreases data@.len() - done,
    {
        let part = base64_encode_chunk(slice_subrange(data, done, done + BASE64_CHUNK));
        text.append(part.as_str());
        proof {
            let head = data@.take(done as int);
            let piece = data@.subrange(done as int, done + BASE64_CHUNK);
            base64_of_concat(head, piece);
            assert(head + piece =~= data@.take(done + BASE64_CHUNK));
        }
        done += BASE64_CHUNK;
    }
    let part = base64_encode_chunk(slice_subrange(data, done, data.len()));
    text.append(part.as_str());
    proof {
        let head = data@.take(done as int);
        let piece = data@.subrange(done as int, data@.len() as int);
        base64_of_concat(head, piece);
        assert(head + piece =~= data@);
    }
    text
}

} // verus!
