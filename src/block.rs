use crate::primitives::{aes128_decrypt, aes128_encrypt, aes_decrypt_block, aes_encrypt_block};
use crate::slice::{lemma_section_bounds, section, section_count, split_into_sections};
use vstd::prelude::*;

verus! {

/// Size of a cipher block, in bytes.
pub const BLOCK_SIZE: usize = 16;

/// `b` extended with zero bytes to a full block.
pub open spec fn zero_padded(b: Seq<u8>) -> Seq<u8> {
    b + Seq::new((16 - b.len()) as nat, |i: int| 0u8)
}

/// The `i`-th block that the cipher stage reads from `s`: its `i`-th window, zero-padded.
pub open spec fn block_of(s: Seq<u8>, i: nat) -> Seq<u8> {
    zero_padded(section(s, 16, i))
}

/// Number of blocks that the cipher stage cuts `s` into.
pub open spec fn block_count(s: Seq<u8>) -> nat {
    section_count(s.len(), 16)
}

/// The first `k` blocks of `s`, each enciphered on its own under `key`, in order.
pub open spec fn encrypted_prefix(key: Seq<u8>, s: Seq<u8>, k: nat) -> Seq<u8>
    decreases k,
{
    if k == 0 {
        Seq::empty()
    } else {
        encrypted_prefix(key, s, (k - 1) as nat) + aes128_encrypt(key, block_of(s, (k - 1) as nat))
    }
}

/// The first `k` blocks of `s`, each deciphered on its own under `key`, in order.
pub open spec fn decrypted_prefix(key: Seq<u8>, s: Seq<u8>, k: nat) -> Seq<u8>
    decreases k,
{
    if k == 0 {
        Seq::empty()
    } else {
        decrypted_prefix(key, s, (k - 1) as nat) + aes128_decrypt(key, block_of(s, (k - 1) as nat))
    }
}

/// The first `k` blocks of `s`, zero-padded, in order.
pub open spec fn padded_prefix(s: Seq<u8>, k: nat) -> Seq<u8>
    decreases k,
{
    if k == 0 {
        Seq::empty()
    } else {
        padded_prefix(s, (k - 1) as nat) + block_of(s, (k - 1) as nat)
    }
}

/// Every block of `s` in codebook mode: enciphered independently, no chaining, no IV.
pub open spec fn ecb_encrypted(key: Seq<u8>, s: Seq<u8>) -> Seq<u8> {
    encrypted_prefix(key, s, block_count(s))
}

/// Every block of `s` deciphered independently under `key`.
pub open spec fn ecb_decrypted(key: Seq<u8>, s: Seq<u8>) -> Seq<u8> {
    decrypted_prefix(key, s, block_count(s))
}

/// What deciphering a block enciphered from `s` under `key` gives back, for its first
/// `k` blocks: the block itself, and a ciphertext block of full size.
pub open spec fn blocks_invert(key: Seq<u8>, s: Seq<u8>, k: nat) -> bool {
    forall|i: nat|
        i < k ==> {
            &&& (#[trigger] aes128_encrypt(key, block_of(s, i))).len() == 16
            &&& aes128_decrypt(key, aes128_encrypt(key, block_of(s, i))) == block_of(s, i)
        }
}

proof fn lemma_encrypted_len(key: Seq<u8>, s: Seq<u8>, k: nat)
    requires
        blocks_invert(key, s, k),
    ensures
        encrypted_prefix(key, s, k).len() == 16 * k,
    decreases k,
{
    if k > 0 {
        lemma_encrypted_len(key, s, (k - 1) as nat);
        assert(aes128_encrypt(key, block_of(s, (k - 1) as nat)).len() == 16);
    }
}

proof fn lemma_encrypted_block(key: Seq<u8>, s: Seq<u8>, k: nat, i: nat)
    requires
        blocks_invert(key, s, k),
        i < k,
    ensures
        encrypted_prefix(key, s, k).subrange((16 * i) as int, (16 * i + 16) as int) == aes128_encrypt(
            key,
            block_of(s, i),
        ),
    decreases k,
{
    let prev = encrypted_prefix(key, s, (k - 1) as nat);
    let last = aes128_encrypt(key, block_of(s, (k - 1) as nat));
    lemma_encrypted_len(key, s, (k - 1) as nat);
    assert(last.len() == 16);
    if i + 1 == k {
        assert((prev + last).subrange((16 * i) as int, (16 * i + 16) as int) =~= last);
    } else {
        lemma_encrypted_block(key, s, (k - 1) as nat, i);
        assert((prev + last).subrange((16 * i) as int, (16 * i + 16) as int) =~= prev.subrange((16 * i) as int, (16 * i + 16) as int));
    }
}

/// Deciphering, block by block, what `encrypt_blocks` made of `s` gives `s`'s padded blocks.
proof fn lemma_decrypt_encrypted(key: Seq<u8>, s: Seq<u8>, k: nat)
    requires
        blocks_invert(key, s, block_count(s)),
        k <= block_count(s),
    ensures
        decrypted_prefix(key, ecb_encrypted(key, s), k) == padded_prefix(s, k),
    decreases k,
{
    if k > 0 {
        let n = block_count(s);
        let c = ecb_encrypted(key, s);
        let i = (k - 1) as nat;
        lemma_decrypt_encrypted(key, s, i);
        lemma_encrypted_len(key, s, n);
        lemma_encrypted_block(key, s, n, i);
        assert(16 * (i + 1) <= c.len()) by (nonlinear_arith)
            requires
                i < n,
                c.len() == 16 * n,
        ;
        assert((i + 1) * 16 == 16 * i + 16) by (nonlinear_arith);
        assert(i * 16 == 16 * i) by (nonlinear_arith);
        assert(section(c, 16, i) == c.subrange((16 * i) as int, (16 * i + 16) as int));
        assert(block_of(c, i) =~= section(c, 16, i));
    }
}

/// The padded blocks of `s` hold `s` itself as a prefix: up to the block `k < n` they are
/// exactly the first `16 * k` bytes, and all `n` of them hold `s` then zeros.
proof fn lemma_padded_prefix(s: Seq<u8>, k: nat)
    requires
        k <= block_count(s),
    ensures
        k < block_count(s) ==> 16 * k <= s.len() && padded_prefix(s, k) == s.take((16 * k) as int),
        k == block_count(s) ==> padded_prefix(s, k).len() == 16 * k && s.len() <= 16 * k
            && padded_prefix(s, k).take(s.len() as int) == s,
    decreases k,
{
    let n = block_count(s);
    if k == 0 {
        assert(s.take(0) =~= Seq::<u8>::empty());
        if n == 0 {
            assert(false);
        }
    } else {
        let i = (k - 1) as nat;
        lemma_padded_prefix(s, i);
        assert((i + 1) * 16 == 16 * i + 16) by (nonlinear_arith);
        assert(i * 16 == 16 * i) by (nonlinear_arith);
        if s.len() > 16 {
            lemma_section_bounds(s.len(), 16, i);
        } else {
            assert(i == 0);
        }
        let w = section(s, 16, i);
        if k < n {
            assert(s.len() > 16);
            assert(w.len() == 16);
            assert(padded_prefix(s, k) =~= s.take((16 * k) as int));
        } else {
            assert(s.take((16 * i) as int) + w =~= s);
            assert(padded_prefix(s, k).take(s.len() as int) =~= s);
        }
    }
}

/// Deciphering the enciphered blocks of `s` gives back `s`, followed by zero padding.
pub proof fn lemma_ecb_round_trip(key: Seq<u8>, s: Seq<u8>)
    requires
        blocks_invert(key, s, block_count(s)),
    ensures
        s.len() <= ecb_decrypted(key, ecb_encrypted(key, s)).len(),
        ecb_decrypted(key, ecb_encrypted(key, s)).take(s.len() as int) == s,
{
    let n = block_count(s);
    let c = ecb_encrypted(key, s);
    lemma_encrypted_len(key, s, n);
    assert(n >= 1);
    assert(block_count(c) == n) by {
        if 16 * n > 16 {
            assert((16 * n) % 16 == 0 && (16 * n) / 16 == n) by (nonlinear_arith);
        }
    }
    lemma_decrypt_encrypted(key, s, n);
    lemma_padded_prefix(s, n);
}

/// Copies a window of at most one block into a zero-filled block.
fn to_block(window: &[u8]) -> (r: [u8; 16])
    requires
        window@.len() <= 16,
    ensures
        r@ == zero_padded(window@),
{
    let mut sized = [0u8; 16];
    let mut j: usize = 0;
    while j < window.len()
        invariant
            window@.len() <= 16,
            j <= window@.len(),
            forall|k: int| 0 <= k < j ==> sized@[k] == window@[k],
            forall|k: int| j <= k < 16 ==> sized@[k] == 0u8,
        decreases window@.len() - j,
    {
        sized[j] = window[j];
        j = j + 1;
    }
    assert(sized@ =~= zero_padded(window@));
    sized
}

fn append_block(out: &mut Vec<u8>, b: [u8; 16])
    ensures
        final(out)@ == old(out)@ + b@,
{
    let mut j: usize = 0;
    while j < 16
        invariant
            j <= 16,
            out@ == old(out)@ + b@.take(j as int),
        decreases 16 - j,
    {
        out.push(b[j]);
        j = j + 1;
        assert(out@ =~= old(out)@ + b@.take(j as int));
    }
    assert(b@.take(16) =~= b@);
}

proof fn lemma_window_len(s: Seq<u8>, i: nat)
    requires
        i < block_count(s),
    ensures
        section(s, 16, i).len() <= 16,
{
    if s.len() > 16 {
        lemma_section_bounds(s.len(), 16, i);
    } else {
        assert(i == 0);
        assert((i + 1) * 16 == 16);
    }
}

/// The cipher stage on encode: `s` cut into zero-padded blocks, each enciphered under `key`.
pub fn encrypt_blocks(key: &[u8; 16], s: &[u8]) -> (r: Vec<u8>)
    ensures
        r@ == ecb_encrypted(key@, s@),
        r@.len() == 16 * block_count(s@),
        blocks_invert(key@, s@, block_count(s@)),
{
    let sections = split_into_sections(s, BLOCK_SIZE);
    let mut out: Vec<u8> = Vec::new();
    let mut k: usize = 0;
    while k < sections.len()
        invariant
            sections@.len() == block_count(s@),
            forall|i: int|
                0 <= i < sections@.len() ==> (#[trigger] sections@[i])@ == section(s@, 16, i as nat),
            k <= sections@.len(),
            out@ == encrypted_prefix(key@, s@, k as nat),
            out@.len() == 16 * k,
            blocks_invert(key@, s@, k as nat),
        decreases sections@.len() - k,
    {
        proof {
            lemma_window_len(s@, k as nat);
        }
        let b = aes_encrypt_block(key, to_block(sections[k]));
        append_block(&mut out, b);
        k = k + 1;
    }
    out
}

/// The cipher stage on decode: `s` cut into zero-padded blocks, each deciphered under `key`.
pub fn decrypt_blocks(key: &[u8; 16], s: &[u8]) -> (r: Vec<u8>)
    ensures
        r@ == ecb_decrypted(key@, s@),
{
    let sections = split_into_sections(s, BLOCK_SIZE);
    let mut out: Vec<u8> = Vec::new();
    let mut k: usize = 0;
    while k < sections.len()
        invariant
            sections@.len() == block_count(s@),
            forall|i: int|
                0 <= i < sections@.len() ==> (#[trigger] sections@[i])@ == section(s@, 16, i as nat),
            k <= sections@.len(),
            out@ == decrypted_prefix(key@, s@, k as nat),
        decreases sections@.len() - k,
    {
        proof {
            lemma_window_len(s@, k as nat);
        }
        let b = aes_decrypt_block(key, to_block(sections[k]));
        append_block(&mut out, b);
        k = k + 1;
    }
    out
}

} // verus!
