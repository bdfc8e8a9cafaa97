//! The integrity check: the HMAC over the authenticated ranges of the running executable
//! must equal the value that the build step embedded in the integrity block.

use vstd::prelude::*;
use crate::block::{IntegrityBlock, PLACEHOLDER_BYTE};
use crate::hmac::{hmac_sha3_256, spec_hmac_sha3_256};
use crate::ranges::{collect_hash_ranges, spec_hash_ranges, Scan};
use crate::text::{
    decimal, err_msg, hex_bytes, hex_fmt, hex_number, push_decimal, push_hex_number,
};

verus! {

/// The HMAC field as the build leaves it before patching: every byte `PLACEHOLDER_BYTE`.
pub open spec fn placeholder_hmac() -> Seq<u8> {
    Seq::new(32, |i: int| PLACEHOLDER_BYTE)
}

/// The complaint about an unpatched integrity block.
pub open spec fn placeholder_message() -> Seq<char> {
    "integrity placeholder not patched — build incomplete"@
}

/// The bytes of `d` in the ranges `r`, concatenated in order.
pub open spec fn code_bytes(d: Seq<u8>, r: Seq<(usize, usize)>) -> Seq<u8>
    decreases r.len(),
{
    if r.len() == 0 {
        seq![]
    } else {
        code_bytes(d, r.drop_last()) + d.subrange(r.last().0 as int, r.last().0 + r.last().1)
    }
}

/// The total length of the first `k` ranges.
pub open spec fn total_len(r: Seq<(usize, usize)>, k: int) -> int
    decreases k,
{
    if k <= 0 || k > r.len() {
        0
    } else {
        total_len(r, k - 1) + r[k - 1].1
    }
}

/// The byte of `s` at position `i` of the `k`-th range, when the ranges' bytes are laid
/// out one after another in range order.
pub open spec fn gathered_at(s: Seq<u8>, r: Seq<(usize, usize)>, k: int, i: int) -> u8 {
    s[total_len(r, k) + i]
}

/// Byte `i` of the `k`-th range of `d`.
pub open spec fn range_byte(d: Seq<u8>, r: Seq<(usize, usize)>, k: int, i: int) -> u8 {
    d[r[k].0 + i]
}

/// Ranges of a common prefix have the same total length.
proof fn lemma_total_len_prefix(r: Seq<(usize, usize)>, q: Seq<(usize, usize)>, k: int)
    requires
        0 <= k <= q.len() <= r.len(),
        forall|j: int| 0 <= j < q.len() ==> q[j] == r[j],
    ensures
        total_len(q, k) == total_len(r, k),
    decreases k,
{
    if k > 0 {
        lemma_total_len_prefix(r, q, k - 1);
    }
}

/// The gathered code is the bytes of the ranges in range order: its length is the sum of
/// the range lengths, and the bytes of the `k`-th range come right after those of the
/// ranges before it.
pub proof fn lemma_code_bytes_in_range_order(d: Seq<u8>, r: Seq<(usize, usize)>)
    requires
        forall|k: int| 0 <= k < r.len() ==> (#[trigger] r[k]).0 + r[k].1 <= d.len(),
    ensures
        code_bytes(d, r).len() == total_len(r, r.len() as int),
        forall|k: int, i: int|
            0 <= k < r.len() && 0 <= i < r[k].1 ==> #[trigger] gathered_at(code_bytes(d, r), r, k, i)
                == range_byte(d, r, k, i),
    decreases r.len(),
{
    if r.len() > 0 {
        let q = r.drop_last();
        let n = q.len() as int;
        assert forall|k: int| 0 <= k < q.len() implies (#[trigger] q[k]).0 + q[k].1 <= d.len() by {
            assert(q[k] == r[k]);
        }
        lemma_code_bytes_in_range_order(d, q);
        lemma_total_len_prefix(r, q, n);
        let last = r[n];
        assert(r.last() == last);
        let piece = d.subrange(last.0 as int, last.0 + last.1);
        assert(code_bytes(d, r) == code_bytes(d, q) + piece);
        assert forall|k: int, i: int|
            0 <= k < r.len() && 0 <= i < r[k].1 implies #[trigger] gathered_at(code_bytes(d, r), r, k, i)
                == range_byte(d, r, k, i) by {
            if k < n {
                lemma_total_len_prefix(r, q, k);
                assert(q[k] == r[k]);
                lemma_total_len_prefix(r, q, k + 1);
                assert(total_len(q, k + 1) <= total_len(q, n)) by {
                    lemma_total_len_monotone(q, k + 1, n);
                }
                assert(gathered_at(code_bytes(d, q), q, k, i) == range_byte(d, q, k, i));
                assert(total_len(q, k + 1) == total_len(q, k) + q[k].1);
                lemma_total_len_monotone(r, 0, k);
                let x = total_len(r, k) + i;
                assert(x < code_bytes(d, q).len());
                assert(code_bytes(d, r)[x] == code_bytes(d, q)[x]);
            } else {
                assert(k == n);
                let x = total_len(r, k) + i;
                assert(x == code_bytes(d, q).len() + i);
                assert(code_bytes(d, r)[x] == piece[i]);
                assert(piece[i] == d[last.0 + i]);
            }
        }
    }
}

/// Total lengths grow with the number of ranges counted.
proof fn lemma_total_len_monotone(r: Seq<(usize, usize)>, j: int, k: int)
    requires
        0 <= j <= k <= r.len(),
    ensures
        total_len(r, j) <= total_len(r, k),
    decreases k - j,
{
    if j < k {
        lemma_total_len_monotone(r, j, k - 1);
    }
}

/// One range as `0x<offset>+0x<length>`.
pub open spec fn range_item(r: (usize, usize)) -> Seq<char> {
    "0x"@ + hex_number(r.0 as nat) + "+0x"@ + hex_number(r.1 as nat)
}

/// The ranges rendered one after another, separated by `, `.
pub open spec fn range_list(r: Seq<(usize, usize)>) -> Seq<char>
    decreases r.len(),
{
    if r.len() == 0 {
        seq![]
    } else if r.len() == 1 {
        range_item(r[0])
    } else {
        range_list(r.drop_last()) + ", "@ + range_item(r.last())
    }
}

/// The complaint about an HMAC mismatch, with everything needed to investigate it.
pub open spec fn mismatch_message(
    key: Seq<u8>,
    embedded: Seq<u8>,
    computed: Seq<u8>,
    total_bytes: nat,
    ranges: Seq<(usize, usize)>,
) -> Seq<char> {
    "computed HMAC does not match embedded value (key="@ + hex_bytes(key) + ", embedded="@
        + hex_bytes(embedded) + ", computed="@ + hex_bytes(computed) + ", total_bytes="@ + decimal(
        total_bytes,
    ) + ", ranges=["@ + range_list(ranges) + "]"@
}

/// The outcome of checking image `d` against an integrity block with this key and HMAC.
pub open spec fn spec_verify_code_hmac(key: Seq<u8>, embedded: Seq<u8>, d: Seq<u8>) -> Result<
    (),
    Seq<char>,
> {
    match spec_hash_ranges(d) {
        Scan::Ranges(r) => {
            let code = code_bytes(d, r);
            let computed = spec_hmac_sha3_256(key, code);
            if computed == embedded {
                Ok(())
            } else {
                Err(mismatch_message(key, embedded, computed, code.len(), r))
            }
        },
        Scan::Failed(e) => Err(e.spec_message()),
        Scan::Unreadable => Err(seq![]),
    }
}

/// Whether two 32-byte values are equal.
fn same_bytes(a: &[u8; 32], b: &[u8; 32]) -> (r: bool)
    ensures
        r == (a@ == b@),
{
    let mut i: usize = 0;
    while i < 32
        invariant
            i <= 32,
            forall|j: int| 0 <= j < i ==> a@[j] == b@[j],
        decreases 32 - i,
    {
        if a[i] != b[i] {
            return false;
        }
        i = i + 1;
    }
    assert(a@ =~= b@);
    true
}

/// Fails when the HMAC field still holds the build's placeholder.
pub fn ensure_patched(block: &IntegrityBlock) -> (r: Result<(), String>)
    ensures
        match r {
            Ok(()) => block.hmac@ != placeholder_hmac(),
            Err(m) => block.hmac@ == placeholder_hmac() && m@ == placeholder_message(),
        },
{
    let placeholder: [u8; 32] = [PLACEHOLDER_BYTE; 32];
    assert(placeholder@ =~= placeholder_hmac());
    if same_bytes(&block.hmac, &placeholder) {
        return Err(err_msg("integrity placeholder not patched — build incomplete"));
    }
    Ok(())
}

/// The bytes of `data` in `ranges`, concatenated in order.
pub fn gather_code(data: &[u8], ranges: &Vec<(usize, usize)>) -> (r: Vec<u8>)
    requires
        forall|k: int| 0 <= k < ranges@.len() ==> (#[trigger] ranges@[k]).0 + ranges@[k].1 <= data@.len(),
    ensures
        r@ == code_bytes(data@, ranges@),
        r@.len() == total_len(ranges@, ranges@.len() as int),
        forall|k: int, i: int|
            0 <= k < ranges@.len() && 0 <= i < ranges@[k].1 ==> #[trigger] gathered_at(r@, ranges@, k, i)
                == range_byte(data@, ranges@, k, i),
{
    let mut out: Vec<u8> = Vec::new();
    let mut k: usize = 0;
    while k < ranges.len()
        invariant
            k <= ranges@.len(),
            data@.len() == data.len(),
            forall|k: int| 0 <= k < ranges@.len() ==> (#[trigger] ranges@[k]).0 + ranges@[k].1 <= data@.len(),
            out@ == code_bytes(data@, ranges@.take(k as int)),
        decreases ranges@.len() - k,
    {
        let (off, size) = ranges[k];
        let piece = &data[off..off + size];
        let mut i: usize = 0;
        let ghost before = out@;
        while i < piece.len()
            invariant
                i <= piece@.len(),
                out@ == before + piece@.take(i as int),
            decreases piece@.len() - i,
        {
            out.push(piece[i]);
            assert(piece@.take(i + 1) =~= piece@.take(i as int).push(piece@[i as int]));
            i = i + 1;
        }
        assert(piece@.take(i as int) =~= piece@);
        assert(ranges@.take(k + 1).drop_last() =~= ranges@.take(k as int));
        k = k + 1;
    }
    assert(ranges@.take(k as int) =~= ranges@);
    proof {
        lemma_code_bytes_in_range_order(data@, ranges@);
    }
    out
}

/// Appends the ranges rendered as `0x<offset>+0x<length>`, separated by `, `.
fn push_range_list(s: &mut String, ranges: &Vec<(usize, usize)>)
    ensures
        final(s)@ == old(s)@ + range_list(ranges@),
{
    let mut i: usize = 0;
    assert(range_list(ranges@.take(0)) =~= Seq::<char>::empty());
    assert(s@ =~= old(s)@ + range_list(ranges@.take(0)));
    while i < ranges.len()
        invariant
            i <= ranges@.len(),
            s@ == old(s)@ + range_list(ranges@.take(i as int)),
        decreases ranges@.len() - i,
    {
        let (off, size) = ranges[i];
        let ghost before = s@;
        if i > 0 {
            s.append(", ");
        }
        s.append("0x");
        push_hex_number(s, off as u64);
        s.append("+0x");
        push_hex_number(s, size as u64);
        let ghost t = ranges@.take(i + 1);
        assert(t.drop_last() =~= ranges@.take(i as int));
        assert(t.last() == (off, size));
        if i > 0 {
            assert(s@ =~= before + ", "@ + range_item((off, size)));
        } else {
            assert(s@ =~= before + range_item((off, size)));
            assert(t.len() == 1);
        }
        assert(s@ =~= old(s)@ + range_list(t));
        i = i + 1;
    }
    assert(ranges@.take(i as int) =~= ranges@);
}

/// The answer of the check once the HMAC over the authenticated bytes is known: success
/// when it equals the embedded value, otherwise a report of key, both values, the number
/// of bytes hashed and the ranges.
pub fn hmac_verdict(
    block: &IntegrityBlock,
    computed: &[u8; 32],
    total_bytes: usize,
    ranges: &Vec<(usize, usize)>,
) -> (r: Result<(), String>)
    ensures
        match r {
            Ok(()) => computed@ == block.hmac@,
            Err(m) => computed@ != block.hmac@ && m@ == mismatch_message(
                block.key@,
                block.hmac@,
                computed@,
                total_bytes as nat,
                ranges@,
            ),
        },
{
    if same_bytes(&block.hmac, computed) {
        return Ok(());
    }
    let mut msg = String::from_str("computed HMAC does not match embedded value (key=");
    msg.append(hex_fmt(block.key.as_slice()).as_str());
    msg.append(", embedded=");
    msg.append(hex_fmt(block.hmac.as_slice()).as_str());
    msg.append(", computed=");
    msg.append(hex_fmt(computed.as_slice()).as_str());
    msg.append(", total_bytes=");
    push_decimal(&mut msg, total_bytes as u64);
    msg.append(", ranges=[");
    push_range_list(&mut msg, ranges);
    msg.append("]");
    assert(msg@ =~= mismatch_message(block.key@, block.hmac@, computed@, total_bytes as nat, ranges@));
    Err(msg)
}

/// Checks `exe_data`, the bytes of the running executable, against the integrity block:
/// the HMAC over its authenticated ranges, keyed with the block's key, must equal the
/// block's HMAC.
pub fn verify_code_hmac(block: &IntegrityBlock, exe_data: &[u8]) -> (r: Result<(), String>)
    requires
        !(spec_hash_ranges(exe_data@) is Unreadable),
    ensures
        match r {
            Ok(()) => spec_verify_code_hmac(block.key@, block.hmac@, exe_data@) == Ok::<
                (),
                Seq<char>,
            >(()),
            Err(m) => spec_verify_code_hmac(block.key@, block.hmac@, exe_data@) == Err::<
                (),
                Seq<char>,
            >(m@),
        },
        r is Ok <==> (spec_hash_ranges(exe_data@) is Ranges && spec_hmac_sha3_256(
            block.key@,
            code_bytes(exe_data@, spec_hash_ranges(exe_data@)->Ranges_0),
        ) == block.hmac@),
{
    let ranges = match collect_hash_ranges(exe_data) {
        Ok(r) => r,
        Err(e) => {
            return Err(e.message());
        },
    };
    let exe_len = exe_data.len();
    proof {
        crate::coverage::lemma_hash_ranges_exact(exe_data@);
    }
    let code_data = gather_code(exe_data, &ranges);
    let computed = hmac_sha3_256(block.key.as_slice(), code_data.as_slice());
    hmac_verdict(block, &computed, code_data.len(), &ranges)
}

} // verus!
