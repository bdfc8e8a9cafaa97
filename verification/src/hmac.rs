//! HMAC-SHA3-256 (RFC 2104 with the SHA3-256 hash, block size 136 bytes).

use vstd::prelude::*;
use sha3::Digest;
use zeroize::Zeroize;

verus! {

/// SHA3-256 digest size in bytes (256 bits / 8).
pub const JENT_SHA3_256_SIZE_DIGEST: usize = 32;
/// SHA3-256 block size (rate) in bytes: (1600 - 2*256) / 8 = 136.
pub const JENT_SHA3_256_SIZE_BLOCK: usize = 136;
/// Inner padding byte.
pub const IPAD: u8 = 0x36;
/// Outer padding byte.
pub const OPAD: u8 = 0x5C;

/// The SHA3-256 digest of `data`.
pub uninterp spec fn spec_sha3_256(data: Seq<u8>) -> Seq<u8>;

/// SHA3-256 as computed by the `sha3` crate (`Sha3_256::digest`); the contract claims only
/// that the 32-byte result is the digest of exactly the bytes passed in. With the crate's
/// `zeroize` feature the Keccak state is wiped when the hasher is dropped.
#[verifier::external_body]
fn sha3_256(data: &[u8]) -> (r: [u8; JENT_SHA3_256_SIZE_DIGEST])
    ensures
        r@ == spec_sha3_256(data@),
{
    sha3::Sha3_256::digest(data).into()
}

/// Overwrites a key block with zeros (the `zeroize` crate's `Zeroize` for arrays of bytes,
/// which writes zero into every element with volatile stores).
#[verifier::external_body]
fn wipe_block(buf: &mut [u8; JENT_SHA3_256_SIZE_BLOCK])
    ensures
        final(buf)@ == zeros(JENT_SHA3_256_SIZE_BLOCK as nat),
{
    buf.zeroize()
}

/// `n` zero bytes.
pub open spec fn zeros(n: nat) -> Seq<u8> {
    Seq::new(n, |i: int| 0u8)
}

/// `k` padded with zeros to a full block.
pub open spec fn pad_to_block(k: Seq<u8>) -> Seq<u8> {
    k + zeros((JENT_SHA3_256_SIZE_BLOCK - k.len()) as nat)
}

/// The block-sized key K0: a key longer than a block is hashed first; the key is then
/// padded with zeros to the block size.
pub open spec fn block_key(key: Seq<u8>) -> Seq<u8> {
    if key.len() > JENT_SHA3_256_SIZE_BLOCK {
        pad_to_block(spec_sha3_256(key))
    } else {
        pad_to_block(key)
    }
}

/// Every byte of `k` XOR `pad`.
pub open spec fn xor_pad(k: Seq<u8>, pad: u8) -> Seq<u8> {
    Seq::new(k.len(), |i: int| k[i] ^ pad)
}

/// HMAC-SHA3-256: H((K0 ^ opad) || H((K0 ^ ipad) || msg)).
pub open spec fn spec_hmac_sha3_256(key: Seq<u8>, msg: Seq<u8>) -> Seq<u8> {
    let k0 = block_key(key);
    spec_sha3_256(xor_pad(k0, OPAD) + spec_sha3_256(xor_pad(k0, IPAD) + msg))
}

/// The 136-byte block whose byte `i` is byte `i` of `kb` (zero past its end) XOR `pad`.
pub open spec fn padded_key_xor(kb: Seq<u8>, pad: u8) -> Seq<u8> {
    Seq::new(
        JENT_SHA3_256_SIZE_BLOCK as nat,
        |i: int|
            (if i < kb.len() {
                kb[i]
            } else {
                0u8
            }) ^ pad,
    )
}

/// The key material the pads are made from: the key, or its digest when the key is longer
/// than a block.
pub open spec fn hmac_key_material(key: Seq<u8>) -> Seq<u8> {
    if key.len() > JENT_SHA3_256_SIZE_BLOCK {
        spec_sha3_256(key)
    } else {
        key
    }
}

/// RFC 2104 with SHA3-256: for every key and every message of any length, the HMAC is
/// SHA3-256((K0 ^ 0x5c..) || SHA3-256((K0 ^ 0x36..) || msg)), where K0 is the key (or its
/// 32-byte digest, for keys longer than 136 bytes) zero-padded to 136 bytes, and the
/// message enters the inner hash unchanged.
pub proof fn lemma_hmac_rfc2104(key: Seq<u8>, msg: Seq<u8>)
    requires
        key.len() > JENT_SHA3_256_SIZE_BLOCK ==> spec_sha3_256(key).len() == JENT_SHA3_256_SIZE_DIGEST,
    ensures
        spec_hmac_sha3_256(key, msg) == spec_sha3_256(
            padded_key_xor(hmac_key_material(key), 0x5cu8) + spec_sha3_256(
                padded_key_xor(hmac_key_material(key), 0x36u8) + msg,
            ),
        ),
{
    let kb = hmac_key_material(key);
    assert(xor_pad(block_key(key), IPAD) =~= padded_key_xor(kb, 0x36u8));
    assert(xor_pad(block_key(key), OPAD) =~= padded_key_xor(kb, 0x5cu8));
}

/// Appends `bytes` to `v`.
fn append_bytes(v: &mut Vec<u8>, bytes: &[u8])
    ensures
        final(v)@ == old(v)@ + bytes@,
{
    let mut i: usize = 0;
    while i < bytes.len()
        invariant
            i <= bytes@.len(),
            v@ == old(v)@ + bytes@.take(i as int),
        decreases bytes@.len() - i,
    {
        v.push(bytes[i]);
        assert(bytes@.take(i + 1) =~= bytes@.take(i as int).push(bytes@[i as int]));
        i = i + 1;
    }
    assert(bytes@.take(i as int) =~= bytes@);
}

/// The key material padded with zeros to a full block.
pub fn key_block(k: &[u8]) -> (r: [u8; JENT_SHA3_256_SIZE_BLOCK])
    requires
        k@.len() <= JENT_SHA3_256_SIZE_BLOCK,
    ensures
        r@ == pad_to_block(k@),
{
    let mut k0: [u8; JENT_SHA3_256_SIZE_BLOCK] = [0u8; 136];
    let mut i: usize = 0;
    while i < k.len()
        invariant
            i <= k@.len(),
            k@.len() <= JENT_SHA3_256_SIZE_BLOCK,
            forall|j: int| 0 <= j < i ==> k0@[j] == k@[j],
            forall|j: int| i <= j < JENT_SHA3_256_SIZE_BLOCK ==> k0@[j] == 0,
        decreases k@.len() - i,
    {
        k0[i] = k[i];
        i = i + 1;
    }
    assert(k0@ =~= pad_to_block(k@));
    k0
}

/// Every byte of the block XOR `pad`.
pub fn xor_block(k0: &[u8; JENT_SHA3_256_SIZE_BLOCK], pad: u8) -> (r: [u8; JENT_SHA3_256_SIZE_BLOCK])
    ensures
        r@ == xor_pad(k0@, pad),
{
    let mut out: [u8; JENT_SHA3_256_SIZE_BLOCK] = [0u8; 136];
    let mut i: usize = 0;
    while i < JENT_SHA3_256_SIZE_BLOCK
        invariant
            i <= JENT_SHA3_256_SIZE_BLOCK,
            forall|j: int| 0 <= j < i ==> out@[j] == k0@[j] ^ pad,
        decreases JENT_SHA3_256_SIZE_BLOCK - i,
    {
        out[i] = k0[i] ^ pad;
        i = i + 1;
    }
    assert(out@ =~= xor_pad(k0@, pad));
    out
}

/// Compute HMAC-SHA3-256 per NIST SP 800-185 / RFC 2104.
///
/// Returns the full 32-byte digest. The caller may truncate to `mac_len_bits`
/// bytes (e.g. for NIST ACVP test vectors where `macLen` is specified in bits).
pub fn hmac_sha3_256(key: &[u8], msg: &[u8]) -> (r: [u8; JENT_SHA3_256_SIZE_DIGEST])
    ensures
        r@ == spec_hmac_sha3_256(key@, msg@),
        key@.len() > JENT_SHA3_256_SIZE_BLOCK ==> spec_sha3_256(key@).len()
            == JENT_SHA3_256_SIZE_DIGEST,
        r@ == spec_sha3_256(
            padded_key_xor(hmac_key_material(key@), 0x5cu8) + spec_sha3_256(
                padded_key_xor(hmac_key_material(key@), 0x36u8) + msg@,
            ),
        ),
{
    let mut k0 = if key.len() > JENT_SHA3_256_SIZE_BLOCK {
        let hashed_key = sha3_256(key);
        key_block(hashed_key.as_slice())
    } else {
        key_block(key)
    };
    assert(k0@ =~= block_key(key@));
    let mut i_key_pad = xor_block(&k0, IPAD);
    let mut o_key_pad = xor_block(&k0, OPAD);

    let mut inner_input: Vec<u8> = Vec::new();
    append_bytes(&mut inner_input, i_key_pad.as_slice());
    append_bytes(&mut inner_input, msg);
    let inner = sha3_256(inner_input.as_slice());

    let mut outer_input: Vec<u8> = Vec::new();
    append_bytes(&mut outer_input, o_key_pad.as_slice());
    append_bytes(&mut outer_input, inner.as_slice());
    let mac = sha3_256(outer_input.as_slice());

    proof {
        lemma_hmac_rfc2104(key@, msg@);
    }
    wipe_block(&mut k0);
    wipe_block(&mut i_key_pad);
    wipe_block(&mut o_key_pad);

    mac
}

/// A key longer than a block authenticates exactly as its own 32-byte digest does
/// (RFC 2104, section 3: such keys are first hashed).
pub proof fn lemma_long_key_is_hashed(key: Seq<u8>, msg: Seq<u8>)
    requires
        key.len() > JENT_SHA3_256_SIZE_BLOCK,
        spec_sha3_256(key).len() == JENT_SHA3_256_SIZE_DIGEST,
    ensures
        spec_hmac_sha3_256(key, msg) == spec_hmac_sha3_256(spec_sha3_256(key), msg),
{
    assert(block_key(key) == block_key(spec_sha3_256(key)));
}

/// Appending zero bytes to a key shorter than a block does not change the HMAC
/// (RFC 2104: keys are padded with zeros to the block length).
pub proof fn lemma_zero_padding_invariant(key: Seq<u8>, extra: nat, msg: Seq<u8>)
    requires
        key.len() + extra <= JENT_SHA3_256_SIZE_BLOCK,
    ensures
        spec_hmac_sha3_256(key + zeros(extra), msg) == spec_hmac_sha3_256(key, msg),
{
    assert(block_key(key + zeros(extra)) =~= block_key(key));
}

} // verus!
