use jitterentropy_rustrngd::hmac::{key_block, xor_block};
use jitterentropy_rustrngd::integrity::hmac_verdict;
use jitterentropy_rustrngd::block::{IntegrityBlock, INTEGRITY_TAG, PLACEHOLDER_BYTE};
use jitterentropy_rustrngd::hmac::hmac_sha3_256;
use jitterentropy_rustrngd::integrity::{ensure_patched, gather_code, verify_code_hmac};
use jitterentropy_rustrngd::ranges::collect_hash_ranges;
use jitterentropy_rustrngd::text::{err_msg, hex_fmt};
use sha3::{Digest, Sha3_256};

fn sha3(data: &[u8]) -> Vec<u8> {
    Sha3_256::digest(data).to_vec()
}

/// HMAC written out directly from RFC 2104, as an independent reference.
fn reference_hmac(key: &[u8], msg: &[u8]) -> Vec<u8> {
    let mut k = if key.len() > 136 { sha3(key) } else { key.to_vec() };
    k.resize(136, 0);
    let mut inner: Vec<u8> = k.iter().map(|b| b ^ 0x36).collect();
    inner.extend_from_slice(msg);
    let mut outer: Vec<u8> = k.iter().map(|b| b ^ 0x5c).collect();
    outer.extend_from_slice(&sha3(&inner));
    sha3(&outer)
}

fn hex(s: &str) -> Vec<u8> {
    (0..s.len()).step_by(2).map(|i| u8::from_str_radix(&s[i..i + 2], 16).unwrap()).collect()
}

#[test]
fn hmac_matches_nist_sample_short_key() {
    let key: Vec<u8> = (0u8..32).collect();
    let mac = hmac_sha3_256(&key, b"Sample message for keylen<blocklen");
    assert_eq!(
        mac.to_vec(),
        hex("4fe8e202c4f058e8dddc23d8c34e467343e23555e24fc2f025d598f558f67205")
    );
}

#[test]
fn hmac_matches_reference_for_all_key_lengths() {
    let msg = b"The quick brown fox jumps over the lazy dog";
    for len in [0usize, 1, 31, 32, 135, 136, 137, 200] {
        let key: Vec<u8> = (0..len).map(|i| (i * 7 + 3) as u8).collect();
        assert_eq!(hmac_sha3_256(&key, msg).to_vec(), reference_hmac(&key, msg), "key length {}", len);
    }
}

#[test]
fn long_key_authenticates_like_its_digest() {
    let key = vec![0xa5u8; 300];
    let digest = sha3(&key);
    assert_eq!(hmac_sha3_256(&key, b"m"), hmac_sha3_256(&digest, b"m"));
}

#[test]
fn zero_padding_the_key_changes_nothing() {
    let key = vec![1u8, 2, 3];
    let mut padded = key.clone();
    padded.extend_from_slice(&[0, 0, 0, 0]);
    assert_eq!(hmac_sha3_256(&key, b"msg"), hmac_sha3_256(&padded, b"msg"));
    assert_ne!(hmac_sha3_256(&key, b"msg"), hmac_sha3_256(&key, b"msh"));
}

#[test]
fn hex_and_message_rendering() {
    assert_eq!(hex_fmt(&[0x00, 0x0f, 0xa0, 0xff]), "000fa0ff");
    assert_eq!(hex_fmt(&[]), "");
    assert_eq!(err_msg("no program headers"), "no program headers");
}

fn put(buf: &mut [u8], off: usize, bytes: &[u8]) {
    buf[off..off + bytes.len()].copy_from_slice(bytes);
}

/// A 64-bit image whose only executable load segment is the whole file, with the
/// integrity block at 200 holding `key` and `mac`.
fn image(key: &[u8; 32], mac: &[u8; 32]) -> Vec<u8> {
    let mut d: Vec<u8> = (0..400).map(|i| (i * 13 % 251) as u8).collect();
    put(&mut d, 0, &[0x7f, b'E', b'L', b'F', 2, 1, 1]);
    put(&mut d, 32, &64u64.to_le_bytes());
    put(&mut d, 52, &64u16.to_le_bytes());
    put(&mut d, 54, &56u16.to_le_bytes());
    put(&mut d, 56, &1u16.to_le_bytes());
    put(&mut d, 64, &1u32.to_le_bytes());
    put(&mut d, 68, &5u32.to_le_bytes());
    put(&mut d, 72, &0u64.to_le_bytes());
    put(&mut d, 96, &400u64.to_le_bytes());
    put(&mut d, 200, &INTEGRITY_TAG);
    put(&mut d, 216, key);
    put(&mut d, 248, mac);
    d
}

#[test]
fn placeholder_block_is_rejected() {
    let block = IntegrityBlock { tag: INTEGRITY_TAG, key: [1; 32], hmac: [PLACEHOLDER_BYTE; 32] };
    assert_eq!(
        ensure_patched(&block),
        Err("integrity placeholder not patched — build incomplete".to_string())
    );
    let block = IntegrityBlock { tag: INTEGRITY_TAG, key: [1; 32], hmac: [0; 32] };
    assert_eq!(ensure_patched(&block), Ok(()));
}

#[test]
fn patched_image_passes_and_patching_does_not_change_the_mac() {
    let key = [7u8; 32];
    let unpatched = image(&key, &[PLACEHOLDER_BYTE; 32]);
    let ranges = collect_hash_ranges(&unpatched).ok().unwrap();
    let code = gather_code(&unpatched, &ranges);
    assert_eq!(code.len(), 400 - 64 - 80);
    let mac = hmac_sha3_256(&key, &code);
    let patched = image(&key, &mac);
    let block = IntegrityBlock { tag: INTEGRITY_TAG, key, hmac: mac };
    assert_eq!(verify_code_hmac(&block, &patched), Ok(()));
    assert_eq!(verify_code_hmac(&block, &unpatched), Ok(()));
}

#[test]
fn tampered_code_is_reported_with_details() {
    let key = [7u8; 32];
    let good = image(&key, &[0; 32]);
    let ranges = collect_hash_ranges(&good).ok().unwrap();
    let mac = hmac_sha3_256(&key, &gather_code(&good, &ranges));
    let mut bad = image(&key, &mac);
    bad[300] ^= 1;
    let block = IntegrityBlock { tag: INTEGRITY_TAG, key, hmac: mac };
    let computed = hmac_sha3_256(&key, &gather_code(&bad, &ranges));
    let expected = format!(
        "computed HMAC does not match embedded value (key={}, embedded={}, computed={}, total_bytes=256, ranges=[0x40+0x88, 0x118+0x78]",
        "07".repeat(32),
        hex_fmt(&mac),
        hex_fmt(&computed),
    );
    assert_eq!(verify_code_hmac(&block, &bad), Err(expected));
}

#[test]
fn scan_errors_become_messages() {
    let block = IntegrityBlock { tag: INTEGRITY_TAG, key: [0; 32], hmac: [0; 32] };
    assert_eq!(verify_code_hmac(&block, &[0u8; 10]), Err("ELF file too small".to_string()));
}

#[test]
fn key_block_and_pads() {
    let k0 = key_block(&[1, 2, 3]);
    assert_eq!(&k0[..4], &[1, 2, 3, 0]);
    assert!(k0[3..].iter().all(|&b| b == 0));
    let ipad = xor_block(&k0, 0x36);
    assert_eq!(&ipad[..4], &[0x37, 0x34, 0x35, 0x36]);
    assert!(ipad[3..].iter().all(|&b| b == 0x36));
    let opad = xor_block(&k0, 0x5c);
    assert_eq!(opad[0], 0x5d);
}

#[test]
fn verdict_reports_mismatch() {
    let block = IntegrityBlock { tag: INTEGRITY_TAG, key: [0xab; 32], hmac: [1; 32] };
    assert_eq!(hmac_verdict(&block, &[1; 32], 10, &vec![(0, 10)]), Ok(()));
    let expected = format!(
        "computed HMAC does not match embedded value (key={}, embedded={}, computed={}, total_bytes=4096, ranges=[0x0+0xff0, 0x1000+0x10]",
        "ab".repeat(32),
        "01".repeat(32),
        "02".repeat(32),
    );
    assert_eq!(hmac_verdict(&block, &[2; 32], 4096, &vec![(0, 0xff0), (0x1000, 0x10)]), Err(expected));
    let expected_empty = format!(
        "computed HMAC does not match embedded value (key={}, embedded={}, computed={}, total_bytes=0, ranges=[]",
        "ab".repeat(32),
        "01".repeat(32),
        "02".repeat(32),
    );
    assert_eq!(hmac_verdict(&block, &[2; 32], 0, &vec![]), Err(expected_empty));
}

#[test]
fn patching_keeps_failed_scans_and_ranges_alike() {
    // block right behind a wide program header table: [64, 120) then the block at 120
    let mut a = image(&[7u8; 32], &[PLACEHOLDER_BYTE; 32]);
    put(&mut a, 200, &[0u8; 16]);
    put(&mut a, 120, &INTEGRITY_TAG);
    put(&mut a, 136, &[7u8; 32]);
    put(&mut a, 168, &[PLACEHOLDER_BYTE; 32]);
    let mut b = a.clone();
    put(&mut b, 136, &[9u8; 32]);
    put(&mut b, 168, &[3u8; 32]);
    assert_eq!(collect_hash_ranges(&a).ok().unwrap(), vec![(64, 56), (200, 200)]);
    assert_eq!(collect_hash_ranges(&b).ok().unwrap(), collect_hash_ranges(&a).ok().unwrap());
    // a scan that fails fails alike after patching
    put(&mut a, 68, &4u32.to_le_bytes());
    put(&mut b, 68, &4u32.to_le_bytes());
    assert_eq!(collect_hash_ranges(&a).err(), collect_hash_ranges(&b).err());
    assert!(collect_hash_ranges(&a).is_err());
}
