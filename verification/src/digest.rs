//! Digests of texts.

use sha2::Digest;
use sha2::Sha256;
use vstd::prelude::*;
use vstd::utf8::encode_utf8;

verus! {

/// The SHA-256 digest of `message`.
pub uninterp spec fn sha256(message: Seq<u8>) -> Seq<u8>;

/// The longest message that SHA-256 is defined for: its length in bits is a 64-bit number.
pub const MESSAGE_LIMIT: u64 = 0x1FFF_FFFF_FFFF_FFFF;

/// The SHA-256 digest of `message`.
///
/// `Sha256::digest` of the crate `sha2`: the digest has 32 bytes and depends on the message
/// alone. What the bytes are is left to the name [`sha256`].
#[verifier::external_body]
fn sha256_digest(message: &[u8]) -> (digest: Vec<u8>)
    requires
        message@.len() <= MESSAGE_LIMIT,
    ensures
        digest@ == sha256(message@),
        digest@.len() == 32,
{
    Sha256::digest(message).to_vec()
}

/// The lower-case hexadecimal digit of `d`.
pub open spec fn hex_digit(d: int) -> char {
    if d < 10 {
        (48 + d) as char
    } else {
        (87 + d) as char
    }
}

/// The lower-case hexadecimal text of `bytes`: two digits for each byte, the high one first.
pub open spec fn hex_text(bytes: Seq<u8>) -> Seq<char> {
    Seq::new(
        bytes.len() * 2,
        |i: int|
            if i % 2 == 0 {
                hex_digit(bytes[i / 2] as int / 16)
            } else {
                hex_digit(bytes[i / 2] as int % 16)
            },
    )
}

/// The lower-case hexadecimal text of `bytes`.
///
/// `encode` of the crate `hex`: every byte becomes two digits out of `0123456789abcdef`, the high
/// half first.
#[verifier::external_body]
fn encode_hex(bytes: &[u8]) -> (text: String)
    requires
        bytes@.len() * 2 <= isize::MAX,
    ensures
        text@ == hex_text(bytes@),
{
    hex::encode(bytes)
}

/// The digest of `message` as hexadecimal text.
pub open spec fn sha256_text(message: Seq<u8>) -> Seq<char> {
    hex_text(sha256(message))
}

/// Whether SHA-256 is defined for a text, taken as UTF-8.
pub open spec fn has_digest(text: Seq<char>) -> bool {
    encode_utf8(text).len() <= MESSAGE_LIMIT
}

/// The digest of a text, taken as UTF-8.
pub open spec fn text_digest(text: Seq<char>) -> Seq<char> {
    sha256_text(encode_utf8(text))
}

/// The SHA-256 digest of `bytes` as hexadecimal text.
pub fn sha256_hex(bytes: &[u8]) -> (text: String)
    requires
        bytes@.len() <= MESSAGE_LIMIT,
    ensures
        text@ == sha256_text(bytes@),
        text@.len() == 64,
{
    let digest: Vec<u8> = sha256_digest(bytes);
    encode_hex(digest.as_slice())
}

/// Hexadecimal text loses nothing: different bytes have different texts.
pub proof fn hex_text_is_injective(a: Seq<u8>, b: Seq<u8>)
    requires
        hex_text(a) == hex_text(b),
    ensures
        a == b,
{
    assert(hex_text(a).len() == a.len() * 2);
    assert(hex_text(b).len() == b.len() * 2);
    assert forall|i: int| 0 <= i < a.len() implies a[i] == b[i] by {
        assert(hex_text(a)[2 * i] == hex_digit(a[i] as int / 16));
        assert(hex_text(b)[2 * i] == hex_digit(b[i] as int / 16));
        assert(hex_text(a)[2 * i + 1] == hex_digit(a[i] as int % 16));
        assert(hex_text(b)[2 * i + 1] == hex_digit(b[i] as int % 16));
    }
    assert(a =~= b);
}

} // verus!
