//! The integrity block that a build step embeds in the executable, and how it is found.

use vstd::prelude::*;

verus! {

/// Length of the marker that opens the integrity block.
pub const TAG_LEN: usize = 16;
/// Length of the HMAC key and of the HMAC value kept in the block.
pub const MAC_LEN: usize = 32;
/// The byte that fills the HMAC field until the build step patches in the real value.
pub const PLACEHOLDER_BYTE: u8 = 0xEE;

/// The marker `JENTRNG_INTG_TAG` that opens the integrity block.
pub const INTEGRITY_TAG: [u8; 16] = [
    0x4a, 0x45, 0x4e, 0x54, 0x52, 0x4e, 0x47, 0x5f, 0x49, 0x4e, 0x54, 0x47, 0x5f, 0x54, 0x41, 0x47,
];

/// The integrity block as embedded in the executable: marker, HMAC key, expected HMAC.
pub struct IntegrityBlock {
    pub tag: [u8; 16],
    pub key: [u8; 32],
    pub hmac: [u8; 32],
}

/// The bytes of the marker.
pub open spec fn integrity_tag() -> Seq<u8> {
    INTEGRITY_TAG@
}

/// The number of bytes the embedded block occupies in the image: marker, key and HMAC.
pub open spec fn spec_block_size() -> nat {
    (TAG_LEN + MAC_LEN + MAC_LEN) as nat
}

/// Size in bytes of the integrity block as laid out in the executable.
pub fn block_size() -> (r: usize)
    ensures
        r == spec_block_size(),
        r == 80,
{
    TAG_LEN + MAC_LEN + MAC_LEN
}

/// The marker occurs in `d` at position `i`.
pub open spec fn tag_at(d: Seq<u8>, i: int) -> bool {
    &&& 0 <= i
    &&& i + TAG_LEN <= d.len()
    &&& d.subrange(i, i + TAG_LEN) == integrity_tag()
}

/// The first position at or after `i` where the marker occurs.
pub open spec fn first_tag_from(d: Seq<u8>, i: int) -> Option<int>
    decreases d.len() - i,
{
    if i < 0 || i + TAG_LEN > d.len() {
        None
    } else if tag_at(d, i) {
        Some(i)
    } else {
        first_tag_from(d, i + 1)
    }
}

/// The first position of the marker in `d`, if it occurs.
pub open spec fn spec_find_tag(d: Seq<u8>) -> Option<int> {
    first_tag_from(d, 0)
}

/// `first_tag_from` finds the first occurrence at or after `i`, and only it.
pub proof fn lemma_first_tag_from(d: Seq<u8>, i: int)
    requires
        0 <= i,
    ensures
        match first_tag_from(d, i) {
            Some(k) => i <= k && tag_at(d, k) && forall|j: int| i <= j < k ==> !tag_at(d, j),
            None => forall|j: int| i <= j ==> !tag_at(d, j),
        },
    decreases d.len() - i,
{
    if i + TAG_LEN > d.len() {
    } else if tag_at(d, i) {
    } else {
        lemma_first_tag_from(d, i + 1);
        assert forall|j: int| i <= j && (match first_tag_from(d, i + 1) {
            Some(k) => j < k,
            None => true,
        }) implies !tag_at(d, j) by {
            if j > i {
            }
        }
    }
}

/// The marker's first occurrence is where it occurs and nowhere earlier; when there is
/// none it occurs nowhere.
pub proof fn lemma_find_tag(d: Seq<u8>)
    ensures
        match spec_find_tag(d) {
            Some(k) => tag_at(d, k) && forall|j: int| 0 <= j < k ==> !tag_at(d, j),
            None => forall|j: int| !tag_at(d, j),
        },
{
    lemma_first_tag_from(d, 0);
}

/// Whether the marker occurs at position `i`.
fn tag_matches_at(data: &[u8], i: usize) -> (r: bool)
    requires
        i + TAG_LEN <= data@.len(),
    ensures
        r == tag_at(data@, i as int),
{
    let mut k: usize = 0;
    while k < TAG_LEN
        invariant
            i + TAG_LEN <= data@.len(),
            data@.len() == data.len(),
            k <= TAG_LEN,
            forall|j: int| 0 <= j < k ==> data@[i + j] == integrity_tag()[j],
        decreases TAG_LEN - k,
    {
        if data[i + k] != INTEGRITY_TAG[k] {
            assert(data@.subrange(i as int, i + TAG_LEN)[k as int] != integrity_tag()[k as int]);
            return false;
        }
        k = k + 1;
    }
    assert(data@.subrange(i as int, i + TAG_LEN) =~= integrity_tag());
    true
}

/// Position of the first occurrence of the integrity marker in `data`.
pub fn find_tag_offset(data: &[u8]) -> (r: Option<usize>)
    ensures
        r matches Some(i) ==> spec_find_tag(data@) == Some(i as int),
        r is None ==> spec_find_tag(data@) is None,
{
    if data.len() < TAG_LEN {
        return None;
    }
    let last = data.len() - TAG_LEN;
    let mut i: usize = 0;
    while i <= last
        invariant
            last + TAG_LEN == data@.len(),
            data@.len() == data.len(),
            i <= last + 1,
            first_tag_from(data@, 0) == first_tag_from(data@, i as int),
        decreases last + 1 - i,
    {
        if tag_matches_at(data, i) {
            return Some(i);
        }
        i = i + 1;
    }
    None
}

} // verus!
