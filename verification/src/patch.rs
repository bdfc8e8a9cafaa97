//! Patching the integrity block after the build leaves the authenticated bytes unchanged:
//! the HMAC computed over the unpatched image is the one the check recomputes over the
//! patched image.

use vstd::prelude::*;
use crate::block::{first_tag_from, lemma_find_tag, spec_find_tag, tag_at, TAG_LEN};
use crate::bytes::{uint_be, uint_le};
use crate::coverage::{covers, image_tag, in_block, lemma_hash_ranges_exact};
use crate::elf::{elf_info_of, spec_parse_elf_header, ElfInfo};
use crate::hmac::spec_hmac_sha3_256;
use crate::integrity::{code_bytes, spec_verify_code_hmac};
use crate::ranges::{
    addr_width, entry_offset, flags_field, scan_entries, scan_entry, size_field, spec_hash_ranges,
    start_field,
};

verus! {

/// `d2` equals `d1` except possibly in the key and HMAC fields of the integrity block whose
/// marker starts at `tag_off`.
pub open spec fn differs_only_in_block_fields(d1: Seq<u8>, d2: Seq<u8>, tag_off: int) -> bool {
    &&& d1.len() == d2.len()
    &&& forall|i: int|
        0 <= i < d1.len() && !(tag_off + TAG_LEN <= i < tag_off + 80) ==> #[trigger] d1[i] == d2[i]
}

/// How far past the start of a program header entry the scan may read: the widest field
/// read ends 40 bytes in (64-bit) or 28 bytes in (32-bit).
pub open spec fn entry_read_extent(info: ElfInfo) -> int {
    if info.is_64 {
        40
    } else {
        28
    }
}

/// End of the bytes the scan may read from the program header table: the table itself, or
/// a little further when its entries are narrower than the fields read from them.
pub open spec fn header_table_end(info: ElfInfo) -> int {
    let extent = entry_read_extent(info);
    info.phoff + info.phnum * info.phentsize + (if info.phentsize < extent {
        extent - info.phentsize
    } else {
        0
    })
}

/// The key and HMAC fields of the block whose marker starts at `t` lie after the ELF
/// header and, when `d` has a program header table, outside the bytes the scan reads
/// from it.
pub open spec fn block_fields_clear_of_headers(d: Seq<u8>, t: int) -> bool {
    let info = elf_info_of(d);
    &&& t + TAG_LEN >= 64
    &&& (spec_parse_elf_header(d) is Ok && info.phnum != 0 && info.phoff != 0) ==> (t + 80
        <= info.phoff || header_table_end(info) <= t + TAG_LEN)
}

/// Integers read from bytes on which two images agree are equal.
proof fn lemma_uint_agree(d1: Seq<u8>, d2: Seq<u8>, o: int, w: nat)
    requires
        forall|k: int| o <= k < o + w ==> d1[k] == d2[k],
    ensures
        uint_le(d1, o, w) == uint_le(d2, o, w),
        uint_be(d1, o, w) == uint_be(d2, o, w),
    decreases w,
{
    if w > 0 {
        lemma_uint_agree(d1, d2, o + 1, (w - 1) as nat);
        lemma_uint_agree(d1, d2, o, (w - 1) as nat);
    }
}

/// A marker at `t` with none before it is the first one.
proof fn lemma_first_tag_is(d: Seq<u8>, t: int, i: int)
    requires
        0 <= i <= t,
        tag_at(d, t),
        forall|j: int| 0 <= j < t ==> !tag_at(d, j),
    ensures
        first_tag_from(d, i) == Some(t),
    decreases t - i,
{
    if i < t {
        assert(!tag_at(d, i));
        lemma_first_tag_is(d, t, i + 1);
    }
}

/// Bytes inside the program header table region or the ELF header are never in the
/// block fields, so two images that differ only in those fields agree on them.
proof fn lemma_entry_same(d1: Seq<u8>, d2: Seq<u8>, info: ElfInfo, t: int, idx: int)
    requires
        differs_only_in_block_fields(d1, d2, t),
        0 <= idx < info.phnum,
        t + 80 <= info.phoff || header_table_end(info) <= t + TAG_LEN,
    ensures
        scan_entry(d1, info, t, idx) == scan_entry(d2, info, t, idx),
{
    let off = entry_offset(info, idx);
    let pe = info.phentsize as int;
    let pn = info.phnum as int;
    assert(idx * pe + pe <= pn * pe) by (nonlinear_arith)
        requires
            0 <= idx,
            idx + 1 <= pn,
            pe >= 0,
    ;
    vstd::arithmetic::mul::lemma_mul_nonnegative(idx, pe);
    assert(off + entry_read_extent(info) <= header_table_end(info));
    assert forall|o: int, w: nat| off <= o && o + w <= off + entry_read_extent(info) && o + w <= d1.len() implies #[trigger] uint_le(
        d1,
        o,
        w,
    ) == uint_le(d2, o, w) && uint_be(d1, o, w) == uint_be(d2, o, w) by {
        assert forall|k: int| o <= k < o + w implies d1[k] == d2[k] by {
            assert(d1[k] == d2[k]);
        }
        lemma_uint_agree(d1, d2, o, w);
    }
    let w = addr_width(info);
    let ff = off + flags_field(info);
    let sf = off + start_field(info);
    let zf = off + size_field(info);
    if off + 4 <= d1.len() {
        assert(uint_le(d1, off, 4) == uint_le(d2, off, 4));
    }
    if ff + 4 <= d1.len() {
        assert(uint_le(d1, ff, 4) == uint_le(d2, ff, 4));
    }
    if sf + w <= d1.len() {
        assert(uint_le(d1, sf, w) == uint_le(d2, sf, w));
    }
    if zf + w <= d1.len() {
        assert(uint_le(d1, zf, w) == uint_le(d2, zf, w));
    }
}

/// The scans of the two images agree entry by entry.
proof fn lemma_scan_same(d1: Seq<u8>, d2: Seq<u8>, info: ElfInfo, t: int, n: nat)
    requires
        differs_only_in_block_fields(d1, d2, t),
        n <= info.phnum,
        t + 80 <= info.phoff || header_table_end(info) <= t + TAG_LEN,
    ensures
        scan_entries(d1, info, t, n) == scan_entries(d2, info, t, n),
    decreases n,
{
    if n > 0 {
        lemma_scan_same(d1, d2, info, t, (n - 1) as nat);
        lemma_entry_same(d1, d2, info, t, n - 1);
    }
}

/// The bytes gathered over ranges on which two images agree are equal.
proof fn lemma_code_bytes_agree(d1: Seq<u8>, d2: Seq<u8>, r: Seq<(usize, usize)>)
    requires
        d1.len() == d2.len(),
        forall|k: int| 0 <= k < r.len() ==> (#[trigger] r[k]).0 + r[k].1 <= d1.len(),
        forall|k: int, b: int| 0 <= k < r.len() && #[trigger] covers(r[k], b) ==> d1[b] == d2[b],
    ensures
        code_bytes(d1, r) == code_bytes(d2, r),
    decreases r.len(),
{
    if r.len() > 0 {
        let q = r.drop_last();
        assert forall|k: int, b: int| 0 <= k < q.len() && #[trigger] covers(q[k], b) implies d1[b] == d2[b] by {
            assert(covers(r[k], b));
        }
        assert forall|k: int| 0 <= k < q.len() implies (#[trigger] q[k]).0 + q[k].1 <= d1.len() by {
            assert(q[k] == r[k]);
        }
        lemma_code_bytes_agree(d1, d2, q);
        let last = r.last();
        assert(r[r.len() - 1] == last);
        assert forall|b: int| last.0 <= b < last.0 + last.1 implies d1[b] == d2[b] by {
            assert(covers(r[r.len() - 1], b));
        }
        assert(d1.subrange(last.0 as int, last.0 + last.1) =~= d2.subrange(last.0 as int, last.0 + last.1));
    }
}

/// The ELF header lies before the block fields, so both images parse alike.
proof fn lemma_header_same(d1: Seq<u8>, d2: Seq<u8>, t: int)
    requires
        differs_only_in_block_fields(d1, d2, t),
        t + TAG_LEN >= 64,
        d1.len() >= 64,
    ensures
        spec_parse_elf_header(d2) == spec_parse_elf_header(d1),
{
    assert forall|k: int| 0 <= k < 64 implies d1[k] == d2[k] by {
        assert(d1[k] == d2[k]);
    }
    lemma_uint_agree(d1, d2, 32, 8);
    lemma_uint_agree(d1, d2, 28, 4);
    lemma_uint_agree(d1, d2, 54, 2);
    lemma_uint_agree(d1, d2, 56, 2);
    lemma_uint_agree(d1, d2, 52, 2);
    lemma_uint_agree(d1, d2, 42, 2);
    lemma_uint_agree(d1, d2, 44, 2);
    lemma_uint_agree(d1, d2, 40, 2);
    assert(elf_info_of(d2) == elf_info_of(d1));
}

/// Writing the key and the HMAC into the integrity block (the build's patch step) changes
/// neither the outcome of the scan, successful or not, nor the bytes the hash ranges
/// cover, provided the key and HMAC fields lie outside the ELF header and outside the bytes
/// the scan reads from the program header table. So the check answers for the patched
/// image exactly as for the unpatched one: when the scan succeeds, it passes precisely when
/// the embedded HMAC is the HMAC of the unpatched image's authenticated bytes.
pub proof fn lemma_patching_block_preserves_check(
    d1: Seq<u8>,
    d2: Seq<u8>,
    t: int,
    key: Seq<u8>,
    embedded: Seq<u8>,
)
    requires
        d1.len() <= usize::MAX,
        spec_find_tag(d1) == Some(t),
        block_fields_clear_of_headers(d1, t),
        differs_only_in_block_fields(d1, d2, t),
    ensures
        spec_hash_ranges(d2) == spec_hash_ranges(d1),
        spec_verify_code_hmac(key, embedded, d2) == spec_verify_code_hmac(key, embedded, d1),
        spec_hash_ranges(d1) is Ranges ==> code_bytes(d2, spec_hash_ranges(d1)->Ranges_0)
            == code_bytes(d1, spec_hash_ranges(d1)->Ranges_0),
        spec_hash_ranges(d1) is Ranges ==> (spec_verify_code_hmac(key, embedded, d2) is Ok
            <==> spec_hmac_sha3_256(key, code_bytes(d1, spec_hash_ranges(d1)->Ranges_0))
            == embedded),
{
    let info = elf_info_of(d1);
    lemma_find_tag(d1);
    assert(tag_at(d1, t));
    // the ELF header is untouched
    lemma_header_same(d1, d2, t);
    // the marker is found at the same place
    assert(d2.subrange(t, t + TAG_LEN) =~= d1.subrange(t, t + TAG_LEN));
    assert forall|j: int| 0 <= j < t implies !tag_at(d2, j) by {
        if j + TAG_LEN <= d2.len() {
            assert(d2.subrange(j, j + TAG_LEN) =~= d1.subrange(j, j + TAG_LEN));
            assert(!tag_at(d1, j));
        }
    }
    lemma_first_tag_is(d2, t, 0);
    assert(spec_find_tag(d2) == Some(t));
    // the program header table, as far as the scan reads it, is untouched
    if spec_parse_elf_header(d1) is Ok && info.phnum != 0 && info.phoff != 0 {
        assert(spec_parse_elf_header(d1) == Ok::<ElfInfo, crate::error::IntegrityError>(info));
        lemma_scan_same(d1, d2, info, t, info.phnum as nat);
    }
    assert(spec_hash_ranges(d2) == spec_hash_ranges(d1));
    if spec_hash_ranges(d1) is Ranges {
        let r = spec_hash_ranges(d1)->Ranges_0;
        // the authenticated bytes lie outside the block
        lemma_hash_ranges_exact(d1);
        assert(image_tag(d1) == t);
        assert forall|k: int, b: int| 0 <= k < r.len() && #[trigger] covers(r[k], b) implies d1[b] == d2[b] by {
            assert(!in_block(t, b));
            assert(b < d1.len());
        }
        lemma_code_bytes_agree(d1, d2, r);
    }
}

} // verus!
