use crate::block::{
    block_count, decrypt_blocks, ecb_decrypted, ecb_encrypted, encrypt_blocks,
    lemma_ecb_round_trip,
};
use crate::frame::{
    all_digits, digits_value, field_width, fixed_decimal, has_length_field, lemma_field_holds,
    lemma_fixed_decimal_value, length_field, length_width, num_digits, pow10, read_length,
    defined_output,
};
use crate::primitives::{
    base64_decode, base64_encode, base64_of, unbase64_of, utf8_lossy, utf8_lossy_of,
    zlib_compress, zlib_compressed, zlib_decompress, zlib_inflated,
};
use vstd::prelude::*;
use vstd::string::{StrSliceExecFns, StringExecFns};
use vstd::utf8::{
    decode_utf8, encode_utf8, encode_utf8_decode_utf8, encode_utf8_valid_utf8, is_ascii_chars,
    is_ascii_chars_encode_utf8, valid_utf8,
};

verus! {

/// Why a letter could not be encoded or decoded.
#[derive(Debug, Clone, Copy, PartialEq, Eq, Structural)]
pub enum CodecError {
    /// The compressor reported a failure.
    Compression,
    /// The compressed letter is longer than `MAX_PAYLOAD_LEN` bytes.
    TooLarge,
    /// The length field or the Base64 body of a stored text is malformed, or the length
    /// field asks for more bytes than the body holds.
    InvalidEncoding,
    /// The deciphered bytes are not a zlib stream (a wrong key or a corrupted text).
    Decompression,
    /// The inflated letter does not start with the author's bytes.
    AuthorMismatch,
}

/// Largest compressed letter that is enciphered and framed.
pub const MAX_PAYLOAD_LEN: usize = usize::MAX / 2;

/// The plaintext that is protected: the author's bytes, then the message's, no separator.
pub open spec fn envelope(author: Seq<char>, message: Seq<char>) -> Seq<u8> {
    encode_utf8(author) + encode_utf8(message)
}

/// The text that `bytes` stand for, read as UTF-8 with invalid runs replaced.
pub open spec fn text_of(bytes: Seq<u8>) -> Seq<char> {
    if valid_utf8(bytes) {
        decode_utf8(bytes)
    } else {
        utf8_lossy_of(bytes)
    }
}

/// The message of an envelope made by `author`: what follows the author's bytes.
pub open spec fn unbound(author: Seq<char>, envelope: Seq<u8>) -> Result<Seq<char>, CodecError> {
    let a = encode_utf8(author);
    if a.len() <= envelope.len() && envelope.take(a.len() as int) == a {
        Ok(text_of(envelope.skip(a.len() as int)))
    } else {
        Err(CodecError::AuthorMismatch)
    }
}

/// The stored text: the length field of `len`, then the Base64 of the ciphertext.
pub open spec fn framed(len: nat, ciphertext: Seq<u8>) -> Seq<char> {
    fixed_decimal(len, field_width()) + base64_of(ciphertext)
}

/// The length and the ciphertext that a stored text carries.
pub open spec fn unframed(text: Seq<char>) -> Result<(nat, Seq<u8>), CodecError> {
    if !has_length_field(text) {
        Err(CodecError::InvalidEncoding)
    } else {
        match unbase64_of(text.skip(field_width() as int)) {
            None => Err(CodecError::InvalidEncoding),
            Some(c) => Ok((length_field(text), c)),
        }
    }
}

/// What encoding a letter gives: bind, compress, encipher block by block, frame.
pub open spec fn encoded(key: Seq<u8>, author: Seq<char>, message: Seq<char>) -> Result<
    Seq<char>,
    CodecError,
> {
    match zlib_compressed(envelope(author, message)) {
        None => Err(CodecError::Compression),
        Some(z) => if z.len() > MAX_PAYLOAD_LEN {
            Err(CodecError::TooLarge)
        } else {
            Ok(framed(z.len(), ecb_encrypted(key, z)))
        },
    }
}

/// What decoding a stored text gives: unframe, decipher block by block, cut to the stored
/// length, inflate, unbind.
pub open spec fn decoded(key: Seq<u8>, author: Seq<char>, text: Seq<char>) -> Result<
    Seq<char>,
    CodecError,
> {
    match unframed(text) {
        Err(e) => Err(e),
        Ok((len, c)) => {
            let plain = ecb_decrypted(key, c);
            if len > plain.len() {
                Err(CodecError::InvalidEncoding)
            } else {
                match zlib_inflated(plain.take(len as int)) {
                    None => Err(CodecError::Decompression),
                    Some(env) => unbound(author, env),
                }
            }
        },
    }
}

pub open spec fn text_result(r: Result<String, CodecError>) -> Result<Seq<char>, CodecError> {
    match r {
        Ok(s) => Ok(s@),
        Err(e) => Err(e),
    }
}

pub open spec fn bytes_result(r: Result<Vec<u8>, CodecError>) -> Result<Seq<u8>, CodecError> {
    match r {
        Ok(v) => Ok(v@),
        Err(e) => Err(e),
    }
}

pub proof fn lemma_encode_utf8_concat(a: Seq<char>, b: Seq<char>)
    ensures
        encode_utf8(a + b) == encode_utf8(a) + encode_utf8(b),
    decreases a.len(),
{
    if a.len() == 0 {
        assert(a + b =~= b);
        assert(encode_utf8(a) + encode_utf8(b) =~= encode_utf8(b));
    } else {
        lemma_encode_utf8_concat(a.drop_first(), b);
        assert((a + b).drop_first() =~= a.drop_first() + b);
        assert((a + b)[0] == a[0]);
        assert(encode_utf8(a + b) =~= encode_utf8(a) + encode_utf8(b));
    }
}

proof fn lemma_digits_are_ascii(s: Seq<char>)
    requires
        all_digits(s),
    ensures
        encode_utf8(s).len() == s.len(),
{
    assert(is_ascii_chars(s));
    is_ascii_chars_encode_utf8(s);
}

proof fn lemma_width_at_least_three()
    ensures
        field_width() >= 3,
{
    assert(usize::MAX >= 100);
    let m = usize::MAX as nat;
    assert(num_digits(m) == 1 + num_digits(m / 10));
    assert(num_digits(m / 10) == 1 + num_digits(m / 100));
}

/// Encoding is a function of its inputs: equal keys, authors and messages give equal
/// results (codebook mode, no IV, no randomness).
pub proof fn lemma_encoding_deterministic(
    key1: Seq<u8>,
    author1: Seq<char>,
    message1: Seq<char>,
    key2: Seq<u8>,
    author2: Seq<char>,
    message2: Seq<char>,
)
    requires
        key1 == key2,
        author1 == author2,
        message1 == message2,
    ensures
        encoded(key1, author1, message1) == encoded(key2, author2, message2),
{
}

/// The stored text opens with the compressed length, as exactly `field_width()` decimal
/// digits, zero-padded on the left.
pub proof fn lemma_length_prefix(key: Seq<u8>, author: Seq<char>, message: Seq<char>)
    requires
        encoded(key, author, message) is Ok,
    ensures
        ({
            let text = encoded(key, author, message)->Ok_0;
            let len = zlib_compressed(envelope(author, message))->0.len();
            let head = text.take(field_width() as int);
            &&& head == fixed_decimal(len, field_width())
            &&& all_digits(head)
            &&& digits_value(head) == len
        }),
{
    let text = encoded(key, author, message)->Ok_0;
    let len = zlib_compressed(envelope(author, message))->0.len();
    assert(text.take(field_width() as int) =~= fixed_decimal(len, field_width()));
    lemma_fixed_decimal_value(len, field_width());
    lemma_field_holds(len);
    assert(len % pow10(field_width()) == len) by (nonlinear_arith)
        requires
            len < pow10(field_width()),
    ;
}

/// On a 64-bit target the length field is 20 digits wide.
pub proof fn lemma_width_on_64_bit()
    requires
        usize::MAX == u64::MAX,
    ensures
        field_width() == 20,
{
    reveal_with_fuel(num_digits, 21);
}

/// Joins the author's bytes and the message's into the envelope.
pub fn bind(author: &str, message: &str) -> (r: Vec<u8>)
    ensures
        r@ == envelope(author@, message@),
{
    let mut out = vstd::slice::slice_to_vec(author.as_bytes());
    let m = message.as_bytes();
    let mut i: usize = 0;
    while i < m.len()
        invariant
            i <= m@.len(),
            m@ == encode_utf8(message@),
            out@ == encode_utf8(author@) + m@.take(i as int),
        decreases m@.len() - i,
    {
        out.push(m[i]);
        i = i + 1;
        assert(out@ =~= encode_utf8(author@) + m@.take(i as int));
    }
    assert(m@.take(m@.len() as int) =~= m@);
    out
}

/// Recovers the message from an envelope that must start with the author's bytes.
pub fn unbind(author: &str, envelope: &[u8]) -> (r: Result<String, CodecError>)
    ensures
        text_result(r) == unbound(author@, envelope@),
{
    let a = author.as_bytes();
    if a.len() > envelope.len() {
        return Err(CodecError::AuthorMismatch);
    }
    let mut i: usize = 0;
    while i < a.len()
        invariant
            a@ == encode_utf8(author@),
            a@.len() <= envelope@.len(),
            i <= a@.len(),
            forall|j: int| 0 <= j < i ==> a@[j] == envelope@[j],
        decreases a@.len() - i,
    {
        if a[i] != envelope[i] {
            assert(envelope@.take(a@.len() as int)[i as int] != a@[i as int]);
            assert(envelope@.take(a@.len() as int) != a@);
            return Err(CodecError::AuthorMismatch);
        }
        i = i + 1;
    }
    assert(envelope@.take(a@.len() as int) =~= a@);
    let rest = vstd::slice::slice_subrange(envelope, a.len(), envelope.len());
    assert(rest@ =~= envelope@.skip(a@.len() as int));
    Ok(utf8_lossy(rest))
}

/// Deflates the envelope.
pub fn compress(bytes: &[u8]) -> (r: Result<Vec<u8>, CodecError>)
    ensures
        match r {
            Ok(v) => zlib_compressed(bytes@) == Some(v@) && zlib_inflated(v@) == Some(bytes@),
            Err(e) => zlib_compressed(bytes@) is None && e == CodecError::Compression,
        },
{
    match zlib_compress(bytes) {
        Ok(v) => Ok(v),
        Err(_) => Err(CodecError::Compression),
    }
}

/// Inflates a compressed envelope.
pub fn decompress(bytes: &[u8]) -> (r: Result<Vec<u8>, CodecError>)
    ensures
        bytes_result(r) == match zlib_inflated(bytes@) {
            Some(v) => Ok(v),
            None => Err(CodecError::Decompression),
        },
{
    match zlib_decompress(bytes) {
        Ok(v) => Ok(v),
        Err(_) => Err(CodecError::Decompression),
    }
}

/// Renders the length field of `len` followed by the Base64 of `ciphertext`.
pub fn frame(len: usize, ciphertext: &[u8]) -> (r: String)
    requires
        ciphertext@.len() / 3 * 4 + 4 <= usize::MAX,
    ensures
        r@ == framed(len as nat, ciphertext@),
        unframed(r@) == Ok::<(nat, Seq<u8>), CodecError>((len as nat, ciphertext@)),
{
    let mut out = defined_output(len);
    let body = base64_encode(ciphertext);
    out.append(body.as_str());
    proof {
        let head = fixed_decimal(len as nat, field_width());
        assert(out@.take(field_width() as int) =~= head);
        assert(out@.skip(field_width() as int) =~= body@);
        lemma_fixed_decimal_value(len as nat, field_width());
        lemma_field_holds(len as nat);
        assert((len as nat) % pow10(field_width()) == len as nat) by (nonlinear_arith)
            requires
                (len as nat) < pow10(field_width()),
        ;
    }
    out
}

/// Reads a stored text back into its length field and its ciphertext.
pub fn unframe(text: &str) -> (r: Result<(usize, Vec<u8>), CodecError>)
    ensures
        match r {
            Ok((len, c)) => unframed(text@) == Ok::<(nat, Seq<u8>), CodecError>((len as nat, c@)),
            Err(e) => unframed(text@) == Err::<(nat, Seq<u8>), CodecError>(e),
        },
{
    let len = match read_length(text) {
        None => {
            return Err(CodecError::InvalidEncoding);
        },
        Some(l) => l,
    };
    let width = length_width();
    let n = text.unicode_len();
    let tail = text.substring_char(width, n);
    let whole = text.as_bytes();
    let total = whole.len();
    proof {
        let head = text@.take(width as int);
        assert(text@ =~= head + tail@);
        lemma_encode_utf8_concat(head, tail@);
        lemma_digits_are_ascii(head);
        lemma_width_at_least_three();
        assert(tail@ =~= text@.skip(field_width() as int));
    }
    match base64_decode(tail) {
        Err(_) => Err(CodecError::InvalidEncoding),
        Ok(c) => Ok((len, c)),
    }
}

/// Encodes a letter as the text that is stored: `author ++ message` deflated, enciphered
/// block by block under `key`, and framed with its compressed length.
pub fn encrypt_message(key: &[u8; 16], author: &str, message: &str) -> (r: Result<
    String,
    CodecError,
>)
    ensures
        text_result(r) == encoded(key@, author@, message@),
        r is Ok ==> decoded(key@, author@, r->Ok_0@) == Ok::<Seq<char>, CodecError>(message@),
        r is Ok ==> (unbase64_of(r->Ok_0@.skip(field_width() as int)) matches Some(c) && c.len()
            > 0 && c.len() % 16 == 0),
{
    let env = bind(author, message);
    let compressed = match compress(env.as_slice()) {
        Err(e) => {
            return Err(e);
        },
        Ok(z) => z,
    };
    if compressed.len() > MAX_PAYLOAD_LEN {
        return Err(CodecError::TooLarge);
    }
    let ciphertext = encrypt_blocks(key, compressed.as_slice());
    proof {
        let l = compressed@.len();
        let c = ciphertext@.len();
        assert(c <= l + 16) by {
            if l > 16 {
                assert(16 * (l / 16) <= l) by (nonlinear_arith);
            }
        }
        assert(c / 3 * 4 + 4 <= usize::MAX) by (nonlinear_arith)
            requires
                c <= l + 16,
                l <= usize::MAX / 2,
                usize::MAX >= 100,
        ;
    }
    let r = frame(compressed.len(), ciphertext.as_slice());
    proof {
        let z = compressed@;
        lemma_ecb_round_trip(key@, z);
        let a = encode_utf8(author@);
        let m = encode_utf8(message@);
        assert(env@.take(a.len() as int) =~= a);
        assert(env@.skip(a.len() as int) =~= m);
        encode_utf8_valid_utf8(message@);
        encode_utf8_decode_utf8(message@);
        assert(block_count(z) >= 1);
        assert((16 * block_count(z)) % 16 == 0) by (nonlinear_arith);
    }
    Ok(r)
}

/// Decodes a stored text back into the message, for the author it was encoded for.
pub fn decrypt_message(key: &[u8; 16], author: &str, message: &str) -> (r: Result<
    String,
    CodecError,
>)
    ensures
        text_result(r) == decoded(key@, author@, message@),
{
    let (len, ciphertext) = match unframe(message) {
        Err(e) => {
            return Err(e);
        },
        Ok(p) => p,
    };
    let plain = decrypt_blocks(key, ciphertext.as_slice());
    if len > plain.len() {
        return Err(CodecError::InvalidEncoding);
    }
    let compressed = vstd::slice::slice_subrange(plain.as_slice(), 0, len);
    assert(compressed@ =~= plain@.take(len as int));
    let env = match decompress(compressed) {
        Err(e) => {
            return Err(e);
        },
        Ok(v) => v,
    };
    unbind(author, env.as_slice())
}

} // verus!
