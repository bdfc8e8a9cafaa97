//! The capability sets the daemon keeps: CAP_SYS_ADMIN only, which RNDADDENTROPY needs.

use vstd::prelude::*;

verus! {

/// `_LINUX_CAPABILITY_VERSION_3`.
pub const CAP_VERSION_3: u32 = 0x20080522;
/// Capability number of CAP_SYS_ADMIN.
pub const CAP_SYS_ADMIN: u32 = 21;

/// The header of a `capset` request.
#[derive(Debug, Clone, Copy, PartialEq, Eq, Structural)]
pub struct CapHeader {
    pub version: u32,
    /// 0 selects the calling thread.
    pub pid: i32,
}

/// One 32-bit word of the effective, permitted and inheritable capability sets.
#[derive(Debug, Clone, Copy, PartialEq, Eq, Structural)]
pub struct CapData {
    pub effective: u32,
    pub permitted: u32,
    pub inheritable: u32,
}

/// The `capset` request that restricts the calling thread to CAP_SYS_ADMIN: effective and
/// permitted hold bit 21 of the low word and nothing else, inheritable is empty.
pub fn capability_request() -> (r: (CapHeader, [CapData; 2]))
    ensures
        r.0 == (CapHeader { version: CAP_VERSION_3, pid: 0 }),
        r.1@[0] == (CapData { effective: 0x200000, permitted: 0x200000, inheritable: 0 }),
        r.1@[1] == (CapData { effective: 0, permitted: 0, inheritable: 0 }),
{
    let header = CapHeader { version: CAP_VERSION_3, pid: 0 };
    let mask = 1u32 << CAP_SYS_ADMIN;
    assert(mask == 0x200000) by (bit_vector)
        requires
            mask == 1u32 << 21u32,
    ;
    let data = [
        CapData { effective: mask, permitted: mask, inheritable: 0 },
        CapData { effective: 0, permitted: 0, inheritable: 0 },
    ];
    (header, data)
}

} // verus!
