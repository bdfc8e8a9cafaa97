//! Crediting the entropy that jitterentropy delivered to the kernel pool.

use vstd::prelude::*;
use crate::text::{push_signed_decimal, signed_decimal};

verus! {

/// Entropy injected per write: 384 bits (48 bytes).
pub const ENTROPY_BYTES: usize = 48;

/// RNDADDENTROPY = _IOW('R', 0x03, int[2]): direction WRITE (bits 31:30), payload size 8
/// (bits 29:16), type 'R' = 0x52 (bits 15:8), number 0x03 (bits 7:0).
pub const RNDADDENTROPY: i32 = (1i32 << 30) | (8i32 << 16) | (0x52i32 << 8) | 0x03i32;

/// Fixed reseed interval in seconds: SP 800-90C allows at most 2^17 output bits per seed,
/// and /dev/random drains at most 256 bits/s, so 2^17 / 256 = 512 s.
pub const RESEED_INTERVAL_SECS: u64 = 512;

/// The kernel's `struct rand_pool_info` with a fixed 48-byte payload.
pub struct RandPoolInfo {
    /// Credited entropy in bits.
    pub entropy_count: i32,
    /// Payload size in bytes.
    pub buf_size: i32,
    pub buf: [u8; 48],
}

/// The complaint about a failed read from the entropy collector.
pub open spec fn read_failure_message(ret: int) -> Seq<char> {
    "jent_read_entropy returned "@ + signed_decimal(ret)
}

/// The pool update for `buf`, of which the collector reported `ret` bytes as written:
/// an error when `ret` is negative, otherwise exactly `ret` bytes credited at 8 bits each
/// (a short read is valid under the health tests, and over-crediting would mislead the
/// kernel's entropy accounting).
pub fn entropy_submission(ret: isize, buf: [u8; 48]) -> (r: Result<RandPoolInfo, String>)
    requires
        ret * 8 <= usize::MAX,
    ensures
        match r {
            Ok(info) => {
                &&& ret >= 0
                &&& info.entropy_count == (ret * 8) as i32
                &&& info.buf_size == ret as i32
                &&& info.buf == buf
            },
            Err(m) => ret < 0 && m@ == read_failure_message(ret as int),
        },
{
    if ret < 0 {
        let mut msg = String::from_str("jent_read_entropy returned ");
        push_signed_decimal(&mut msg, ret as i64);
        return Err(msg);
    }
    let actual = ret as usize;
    Ok(RandPoolInfo { entropy_count: (actual * 8) as i32, buf_size: actual as i32, buf })
}

} // verus!
