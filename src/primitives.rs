use aes::cipher::generic_array::GenericArray;
use aes::cipher::{BlockDecrypt, BlockEncrypt, KeyInit};
use aes::Aes128;
use flate2::write::{ZlibDecoder, ZlibEncoder};
use flate2::Compression;
use std::io::Write;
use vstd::prelude::*;
use vstd::utf8::{decode_utf8, encode_utf8, valid_utf8};

verus! {

#[verifier::external_type_specification]
#[verifier::external_body]
pub struct ExIoError(std::io::Error);

#[verifier::external_type_specification]
#[verifier::external_body]
pub struct ExBase64DecodeError(base64::DecodeError);

/// AES-128 encryption of one 16-byte block under a 16-byte key.
pub uninterp spec fn aes128_encrypt(key: Seq<u8>, block: Seq<u8>) -> Seq<u8>;

/// AES-128 decryption of one 16-byte block under a 16-byte key.
pub uninterp spec fn aes128_decrypt(key: Seq<u8>, block: Seq<u8>) -> Seq<u8>;

/// Standard Base64 (with `=` padding) of a byte sequence.
pub uninterp spec fn base64_of(bytes: Seq<u8>) -> Seq<char>;

/// The bytes that a standard Base64 text stands for, or `None` when the text is not Base64.
pub uninterp spec fn unbase64_of(text: Seq<char>) -> Option<Seq<u8>>;

/// The zlib stream (fast level) of a byte sequence, or `None` when the compressor fails.
pub uninterp spec fn zlib_compressed(bytes: Seq<u8>) -> Option<Seq<u8>>;

/// The bytes that a zlib stream inflates to, or `None` when it is not a valid stream.
pub uninterp spec fn zlib_inflated(bytes: Seq<u8>) -> Option<Seq<u8>>;

/// The text of a byte sequence that is not valid UTF-8, with each invalid run replaced.
pub uninterp spec fn utf8_lossy_of(bytes: Seq<u8>) -> Seq<char>;

/// Relies on `Aes128::encrypt_block` (aes crate, through its `cipher` traits): one block
/// enciphered under the key, which `decrypt_block` under the same key turns back.
#[verifier::external_body]
pub(crate) fn aes_encrypt_block(key: &[u8; 16], block: [u8; 16]) -> (r: [u8; 16])
    ensures
        r@ == aes128_encrypt(key@, block@),
        aes128_decrypt(key@, r@) == block@,
{
    let cipher = Aes128::new(&GenericArray::from(*key));
    let mut b = GenericArray::from(block);
    cipher.encrypt_block(&mut b);
    b.into()
}

/// Relies on `Aes128::decrypt_block` (aes crate, through its `cipher` traits): one block
/// deciphered under the key.
#[verifier::external_body]
pub(crate) fn aes_decrypt_block(key: &[u8; 16], block: [u8; 16]) -> (r: [u8; 16])
    ensures
        r@ == aes128_decrypt(key@, block@),
{
    let cipher = Aes128::new(&GenericArray::from(*key));
    let mut b = GenericArray::from(block);
    cipher.decrypt_block(&mut b);
    b.into()
}

/// Relies on `base64::encode` (standard alphabet, padded), whose output `base64::decode`
/// reads back to the input. It panics only when the output length overflows `usize`.
#[verifier::external_body]
pub(crate) fn base64_encode(bytes: &[u8]) -> (r: String)
    requires
        bytes@.len() / 3 * 4 + 4 <= usize::MAX,
    ensures
        r@ == base64_of(bytes@),
        unbase64_of(r@) == Some(bytes@),
{
    base64::encode(bytes)
}

/// Relies on `base64::decode` (standard alphabet, padded): the bytes, or its error when the
/// text is not Base64. It panics only when the input length plus 3 overflows `usize`.
#[verifier::external_body]
pub(crate) fn base64_decode(text: &str) -> (r: Result<Vec<u8>, base64::DecodeError>)
    requires
        encode_utf8(text@).len() + 3 <= usize::MAX,
    ensures
        match r {
            Ok(v) => unbase64_of(text@) == Some(v@),
            Err(_) => unbase64_of(text@) is None,
        },
{
    base64::decode(text)
}

/// Relies on flate2's `write::ZlibEncoder` at `Compression::fast()` over a `Vec`: the zlib
/// stream of the input, which flate2's `write::ZlibDecoder` inflates back to the input.
#[verifier::external_body]
pub(crate) fn zlib_compress(bytes: &[u8]) -> (r: Result<Vec<u8>, std::io::Error>)
    ensures
        match r {
            Ok(v) => zlib_compressed(bytes@) == Some(v@) && zlib_inflated(v@) == Some(bytes@),
            Err(_) => zlib_compressed(bytes@) is None,
        },
{
    let mut encoder = ZlibEncoder::new(Vec::new(), Compression::fast());
    encoder.write_all(bytes)?;
    encoder.finish()
}

/// Relies on flate2's `write::ZlibDecoder` over a `Vec`: the inflated bytes, or its error
/// when the input is not a valid zlib stream.
#[verifier::external_body]
pub(crate) fn zlib_decompress(bytes: &[u8]) -> (r: Result<Vec<u8>, std::io::Error>)
    ensures
        match r {
            Ok(v) => zlib_inflated(bytes@) == Some(v@),
            Err(_) => zlib_inflated(bytes@) is None,
        },
{
    let mut decoder = ZlibDecoder::new(Vec::new());
    decoder.write_all(bytes)?;
    decoder.finish()
}

/// Relies on `String::from_utf8_lossy`: valid UTF-8 is decoded as it stands; other input
/// has its invalid runs replaced by U+FFFD.
#[verifier::external_body]
pub(crate) fn utf8_lossy(bytes: &[u8]) -> (r: String)
    ensures
        r@ == (if valid_utf8(bytes@) {
            decode_utf8(bytes@)
        } else {
            utf8_lossy_of(bytes@)
        }),
{
    String::from_utf8_lossy(bytes).into_owned()
}

} // verus!
