//! What the hash ranges cover: exactly the bytes of the executable load segments that lie
//! outside the ELF header and outside the integrity block.

use vstd::prelude::*;
use crate::block::{lemma_find_tag, spec_block_size, spec_find_tag, tag_at};
use crate::error::IntegrityError;
use crate::bytes::uint_at;
use crate::elf::{elf_info_of, spec_parse_elf_header, ElfInfo};
use crate::order::{lemma_sort_by_offset, sort_by_offset, sorted_by_offset};
use crate::ranges::{
    cut_intervals, exec_segment, max_int, min_int, pieces_from, scan_entries, scan_entry, segment_pieces,
    spec_hash_ranges, Scan, entry_offset, addr_width, start_field, size_field, PT_LOAD, PF_X,
};

verus! {

/// Range `r` (offset, length) contains byte position `b`.
pub open spec fn covers(r: (usize, usize), b: int) -> bool {
    r.0 <= b < r.0 + r.1
}

/// Byte `b` lies inside the integrity block that starts at `tag_off`.
pub open spec fn in_block(tag_off: int, b: int) -> bool {
    tag_off <= b < tag_off + spec_block_size()
}

/// Byte `b` lies inside the ELF header of length `ehsize`.
pub open spec fn in_header(ehsize: int, b: int) -> bool {
    0 <= b < ehsize
}

/// Byte `b` lies inside the executable load segment of one of the first `n` entries.
pub open spec fn in_exec_segment(d: Seq<u8>, info: ElfInfo, n: int, b: int) -> bool {
    exists|idx: int, start: int, size: int|
        0 <= idx < n && #[trigger] exec_segment(d, info, idx, start, size) && start <= b < start
            + size
}

/// Byte `b` is one the integrity HMAC is meant to cover: it belongs to an executable load
/// segment of the first `n` entries and to neither the header nor the integrity block.
pub open spec fn authenticated(d: Seq<u8>, info: ElfInfo, tag_off: int, n: int, b: int) -> bool {
    &&& in_exec_segment(d, info, n, b)
    &&& !in_block(tag_off, b)
    &&& !in_header(info.ehsize as int, b)
}

/// Two intervals share no byte.
pub open spec fn apart(p: (usize, usize), c: (usize, usize)) -> bool {
    p.0 + p.1 <= c.0 || c.1 <= p.0
}

/// Cut interval `c` (start, end) holds byte `b`.
pub open spec fn holds(c: (usize, usize), b: int) -> bool {
    c.0 <= b < c.1
}

/// No cut holds byte `b`.
pub open spec fn uncut(cuts: Seq<(usize, usize)>, b: int) -> bool {
    forall|i: int| 0 <= i < cuts.len() ==> !holds(#[trigger] cuts[i], b)
}

/// The pieces between sorted cuts lie in `[pos, end)`, avoid every cut, and cover every
/// byte of `[pos, end)` that no cut holds.
proof fn lemma_pieces_from(pos: int, end: int, cuts: Seq<(usize, usize)>)
    requires
        0 <= pos,
        end <= usize::MAX,
        forall|i: int, j: int| 0 <= i < j < cuts.len() ==> cuts[i].0 <= cuts[j].0,
        forall|i: int| 0 <= i < cuts.len() ==> cuts[i].0 <= end,
    ensures
        forall|k: int|
            0 <= k < pieces_from(pos, end, cuts).len() ==> {
                let p = #[trigger] pieces_from(pos, end, cuts)[k];
                &&& pos <= p.0
                &&& p.1 > 0
                &&& p.0 + p.1 <= end
            },
        forall|k: int, i: int|
            0 <= k < pieces_from(pos, end, cuts).len() && 0 <= i < cuts.len() ==> apart(
                #[trigger] pieces_from(pos, end, cuts)[k],
                #[trigger] cuts[i],
            ),
        forall|b: int|
            pos <= b < end && #[trigger] uncut(cuts, b) ==> exists|k: int|
                0 <= k < pieces_from(pos, end, cuts).len() && covers(
                    #[trigger] pieces_from(pos, end, cuts)[k],
                    b,
                ),
    decreases cuts.len(),
{
    let ps = pieces_from(pos, end, cuts);
    if cuts.len() == 0 {
        assert forall|b: int| pos <= b < end && #[trigger] uncut(cuts, b) implies exists|k: int|
            0 <= k < ps.len() && covers(#[trigger] ps[k], b) by {
            assert(covers(ps[0], b));
        }
    } else {
        let c = cuts[0];
        let rest = cuts.drop_first();
        let npos = if pos >= c.1 as int {
            pos
        } else {
            c.1 as int
        };
        lemma_pieces_from(npos, end, rest);
        let tail = pieces_from(npos, end, rest);
        let head: Seq<(usize, usize)> = if c.0 > pos {
            seq![(pos as usize, (c.0 - pos) as usize)]
        } else {
            seq![]
        };
        assert(ps == head + tail);
        assert forall|k: int| 0 <= k < ps.len() implies {
            let p = #[trigger] ps[k];
            &&& pos <= p.0
            &&& p.1 > 0
            &&& p.0 + p.1 <= end
        } by {
            if k >= head.len() {
                assert(ps[k] == tail[k - head.len()]);
            }
        }
        assert forall|k: int, i: int| 0 <= k < ps.len() && 0 <= i < cuts.len() implies apart(
            #[trigger] ps[k],
            #[trigger] cuts[i],
        ) by {
            if k < head.len() {
                assert(cuts[0].0 <= cuts[i].0);
            } else {
                assert(ps[k] == tail[k - head.len()]);
                if i > 0 {
                    assert(cuts[i] == rest[i - 1]);
                }
            }
        }
        assert forall|b: int| pos <= b < end && #[trigger] uncut(cuts, b) implies exists|k: int| 0 <= k < ps.len() && covers(#[trigger] ps[k], b) by {
            if b < c.0 {
                assert(covers(ps[0], b));
            } else {
                assert(!holds(cuts[0], b));
                assert forall|i: int| 0 <= i < rest.len() implies !holds(#[trigger] rest[i], b) by {
                    assert(rest[i] == cuts[i + 1]);
                }
                assert(uncut(rest, b));
                let k = choose|k: int| 0 <= k < tail.len() && covers(#[trigger] tail[k], b);
                assert(ps[k + head.len()] == tail[k]);
            }
        }
    }
}

/// The pieces of a segment lie in it, are nonempty, avoid the header and the integrity
/// block, and cover every other byte of the segment.
proof fn lemma_segment_pieces(start: int, end: int, tag_off: int, ehsize: int)
    requires
        0 <= start < end <= usize::MAX,
        0 <= tag_off <= usize::MAX,
        0 <= ehsize <= usize::MAX,
    ensures
        forall|k: int|
            0 <= k < segment_pieces(start, end, tag_off, ehsize).len() ==> {
                let p = #[trigger] segment_pieces(start, end, tag_off, ehsize)[k];
                &&& start <= p.0
                &&& p.1 > 0
                &&& p.0 + p.1 <= end
            },
        forall|k: int, b: int|
            0 <= k < segment_pieces(start, end, tag_off, ehsize).len() && #[trigger] covers(
                segment_pieces(start, end, tag_off, ehsize)[k],
                b,
            ) ==> !in_block(tag_off, b) && !in_header(ehsize, b),
        forall|b: int|
            start <= b < end && !#[trigger] in_block(tag_off, b) && !in_header(ehsize, b) ==> exists|k: int|
                0 <= k < segment_pieces(start, end, tag_off, ehsize).len() && covers(
                    #[trigger] segment_pieces(start, end, tag_off, ehsize)[k],
                    b,
                ),
{
    let cuts = cut_intervals(start, end, tag_off, ehsize);
    let ps = segment_pieces(start, end, tag_off, ehsize);
    let block_end = tag_off + spec_block_size();
    let bc = (max_int(tag_off, start) as usize, min_int(block_end, end) as usize);
    let hc = (start as usize, min_int(ehsize, end) as usize);
    assert(bc.0 == max_int(tag_off, start) && bc.1 == min_int(block_end, end));
    assert(hc.0 == start && hc.1 == min_int(ehsize, end));
    assert forall|i: int| 0 <= i < cuts.len() implies (#[trigger] cuts[i] == bc && block_end > start
        && tag_off < end) || (cuts[i] == hc && ehsize > start) by {}
    assert(cuts.len() <= 2);
    assert forall|i: int, j: int| 0 <= i < j < cuts.len() implies cuts[i].0 <= cuts[j].0 by {}
    lemma_pieces_from(start, end, cuts);
    // every cut lies inside the block or inside the header
    assert forall|i: int, b: int| 0 <= i < cuts.len() && #[trigger] holds(cuts[i], b) implies in_block(
        tag_off,
        b,
    ) || in_header(ehsize, b) by {}
    // every byte of the segment inside the block or the header is held by a cut
    assert forall|b: int| start <= b < end && (in_block(tag_off, b) || in_header(ehsize, b)) implies exists|
        i: int,
    | 0 <= i < cuts.len() && holds(#[trigger] cuts[i], b) by {
        if in_block(tag_off, b) {
            if holds(cuts[0], b) {
            } else {
                assert(holds(cuts[1], b));
            }
        } else {
            if holds(cuts[0], b) {
            } else {
                assert(holds(cuts[1], b));
            }
        }
    }
    assert forall|k: int, b: int| 0 <= k < ps.len() && #[trigger] covers(ps[k], b) implies !in_block(
        tag_off,
        b,
    ) && !in_header(ehsize, b) by {
        if in_block(tag_off, b) || in_header(ehsize, b) {
            let i = choose|i: int| 0 <= i < cuts.len() && holds(#[trigger] cuts[i], b);
            assert(apart(ps[k], cuts[i]));
        }
    }
    assert forall|b: int| start <= b < end && !in_block(tag_off, b) && !in_header(ehsize, b) implies exists|
        k: int,
    | 0 <= k < ps.len() && covers(#[trigger] ps[k], b) by {
        assert forall|i: int| 0 <= i < cuts.len() implies !holds(#[trigger] cuts[i], b) by {}
        assert(uncut(cuts, b));
    }
}

/// The scan over the first `n` entries yields nonempty ranges inside the image whose bytes
/// are all authenticated, and every authenticated byte is in one of them.
proof fn lemma_scan_entries(d: Seq<u8>, info: ElfInfo, tag_off: int, n: nat, r: Seq<(usize, usize)>)
    requires
        scan_entries(d, info, tag_off, n) == Scan::Ranges(r),
        0 <= tag_off <= usize::MAX,
        d.len() <= usize::MAX,
    ensures
        forall|k: int| 0 <= k < r.len() ==> (#[trigger] r[k]).1 > 0 && r[k].0 + r[k].1 <= d.len(),
        forall|k: int, b: int|
            0 <= k < r.len() && #[trigger] covers(r[k], b) ==> authenticated(d, info, tag_off, n as int, b),
        forall|b: int|
            #[trigger] authenticated(d, info, tag_off, n as int, b) ==> exists|k: int|
                0 <= k < r.len() && #[trigger] covers(r[k], b),
    decreases n,
{
    if n == 0 {
        assert forall|b: int| #[trigger] authenticated(d, info, tag_off, n as int, b) implies false by {
            let (idx, start, size) = choose|idx: int, start: int, size: int|
                0 <= idx < n && #[trigger] exec_segment(d, info, idx, start, size) && start <= b < start + size;
        }
    } else {
        let m = (n - 1) as nat;
        let idx = m as int;
        let r0 = match scan_entries(d, info, tag_off, m) {
            Scan::Ranges(r0) => r0,
            _ => r,
        };
        assert(scan_entries(d, info, tag_off, m) is Ranges);
        let p = match scan_entry(d, info, tag_off, idx) {
            Scan::Ranges(p) => p,
            _ => r,
        };
        assert(scan_entry(d, info, tag_off, idx) is Ranges);
        assert(r == r0 + p);
        lemma_scan_entries(d, info, tag_off, m, r0);
        let off = entry_offset(info, idx);
        let w = addr_width(info);
        let start = uint_at(d, off + start_field(info), w, info.le) as int;
        let size = uint_at(d, off + size_field(info), w, info.le) as int;
        let full = exec_segment(d, info, idx, start, size) && start + size <= d.len();
        if full {
            assert(p == segment_pieces(start, start + size, tag_off, info.ehsize as int));
            lemma_segment_pieces(start, start + size, tag_off, info.ehsize as int);
        } else {
            assert(p.len() == 0);
        }
        // bounds of every range
        assert forall|k: int| 0 <= k < r.len() implies (#[trigger] r[k]).1 > 0 && r[k].0 + r[k].1 <= d.len() by {
            if k < r0.len() {
                assert(r[k] == r0[k]);
            } else {
                assert(r[k] == p[k - r0.len()]);
            }
        }
        // every covered byte is authenticated
        assert forall|k: int, b: int|
            0 <= k < r.len() && #[trigger] covers(r[k], b) implies authenticated(d, info, tag_off, n as int, b) by {
            if k < r0.len() {
                assert(r[k] == r0[k]);
                assert(covers(r0[k], b));
                assert(authenticated(d, info, tag_off, m as int, b));
                let (i2, s2, z2) = choose|i2: int, s2: int, z2: int|
                    0 <= i2 < m && #[trigger] exec_segment(d, info, i2, s2, z2) && s2 <= b < s2 + z2;
                assert(exec_segment(d, info, i2, s2, z2));
            } else {
                let j = k - r0.len();
                assert(r[k] == p[j]);
                assert(covers(p[j], b));
                assert(exec_segment(d, info, idx, start, size));
            }
        }
        // every authenticated byte is covered
        assert forall|b: int| #[trigger] authenticated(d, info, tag_off, n as int, b) implies exists|k: int|
            0 <= k < r.len() && #[trigger] covers(r[k], b) by {
            let (i2, s2, z2) = choose|i2: int, s2: int, z2: int|
                0 <= i2 < n && #[trigger] exec_segment(d, info, i2, s2, z2) && s2 <= b < s2 + z2;
            if i2 < m {
                assert(exec_segment(d, info, i2, s2, z2));
                assert(authenticated(d, info, tag_off, m as int, b));
                let k = choose|k: int| 0 <= k < r0.len() && #[trigger] covers(r0[k], b);
                assert(r[k] == r0[k]);
            } else {
                assert(s2 == start && z2 == size);
                assert(full);
                let k = choose|k: int| 0 <= k < p.len() && #[trigger] covers(p[k], b);
                assert(r[k + r0.len()] == p[k]);
            }
        }
    }
}

/// Where the integrity marker is, for an image in which it occurs.
pub open spec fn image_tag(d: Seq<u8>) -> int {
    match spec_find_tag(d) {
        Some(t) => t,
        None => 0,
    }
}

/// The hash ranges of an image authenticate exactly the bytes the integrity check is meant
/// for: the ranges are sorted by offset, nonempty and inside the image; every byte they
/// cover belongs to an executable load segment and lies outside both the ELF header and
/// the integrity block; and every such byte is covered.
pub proof fn lemma_hash_ranges_exact(d: Seq<u8>)
    requires
        d.len() <= usize::MAX,
        spec_hash_ranges(d) is Ranges,
    ensures
        ({
            let r = spec_hash_ranges(d)->Ranges_0;
            let info = elf_info_of(d);
            let tag_off = image_tag(d);
            &&& r.len() > 0
            &&& sorted_by_offset(r)
            &&& forall|k: int| 0 <= k < r.len() ==> (#[trigger] r[k]).1 > 0 && r[k].0 + r[k].1 <= d.len()
            &&& forall|k: int, b: int|
                0 <= k < r.len() && #[trigger] covers(r[k], b) ==> authenticated(d, info, tag_off, info.phnum as int, b)
            &&& forall|b: int|
                #[trigger] authenticated(d, info, tag_off, info.phnum as int, b) ==> exists|k: int|
                    0 <= k < r.len() && #[trigger] covers(r[k], b)
        }),
{
    broadcast use vstd::seq_lib::group_to_multiset_ensures;
    let r = spec_hash_ranges(d)->Ranges_0;
    let info = elf_info_of(d);
    let tag_off = image_tag(d);
    assert(spec_parse_elf_header(d) == Ok::<ElfInfo, crate::error::IntegrityError>(info));
    crate::block::lemma_find_tag(d);
    assert(crate::block::tag_at(d, tag_off));
    let r0 = scan_entries(d, info, tag_off, info.phnum as nat)->Ranges_0;
    assert(r == sort_by_offset(r0));
    lemma_sort_by_offset(r0);
    lemma_scan_entries(d, info, tag_off, info.phnum as nat, r0);
    assert forall|k: int| 0 <= k < r.len() implies exists|j: int| 0 <= j < r0.len() && r0[j] == #[trigger] r[k] by {
        assert(r.contains(r[k]));
        assert(r.to_multiset().count(r[k]) > 0);
        assert(r0.contains(r[k]));
    }
    assert forall|k: int| 0 <= k < r.len() implies (#[trigger] r[k]).1 > 0 && r[k].0 + r[k].1 <= d.len() by {
        let j = choose|j: int| 0 <= j < r0.len() && r0[j] == r[k];
        assert(r0[j] == r[k]);
    }
    assert forall|k: int, b: int|
        0 <= k < r.len() && #[trigger] covers(r[k], b) implies authenticated(d, info, tag_off, info.phnum as int, b) by {
        let j = choose|j: int| 0 <= j < r0.len() && r0[j] == r[k];
        assert(covers(r0[j], b));
    }
    assert forall|b: int| #[trigger] authenticated(d, info, tag_off, info.phnum as int, b) implies exists|k: int|
        0 <= k < r.len() && #[trigger] covers(r[k], b) by {
        let j = choose|j: int| 0 <= j < r0.len() && #[trigger] covers(r0[j], b);
        assert(r0.contains(r0[j]));
        assert(r0.to_multiset().count(r0[j]) > 0);
        assert(r.contains(r0[j]));
        let k = choose|k: int| 0 <= k < r.len() && r[k] == r0[j];
        assert(covers(r[k], b));
    }
}

/// A stopped scan stopped at one entry, after every entry before it went through.
proof fn lemma_scan_stop_entry(d: Seq<u8>, info: ElfInfo, tag_off: int, n: nat)
    requires
        !(scan_entries(d, info, tag_off, n) is Ranges),
    ensures
        exists|idx: int| 0 <= idx < n && #[trigger] scan_entry(d, info, tag_off, idx) == scan_entries(d, info, tag_off, n),
    decreases n,
{
    let m = (n - 1) as nat;
    if scan_entries(d, info, tag_off, m) is Ranges {
        assert(scan_entry(d, info, tag_off, m as int) == scan_entries(d, info, tag_off, n));
    } else {
        lemma_scan_stop_entry(d, info, tag_off, m);
        let idx = choose|idx: int| 0 <= idx < m && #[trigger] scan_entry(d, info, tag_off, idx) == scan_entries(d, info, tag_off, m);
        assert(scan_entry(d, info, tag_off, idx) == scan_entries(d, info, tag_off, n));
    }
}

/// Each way the scan fails names what is wrong with the image: it is shorter than an ELF
/// header; it lacks the ELF magic; it has no program header table; it holds no integrity
/// marker; program header entry `i` reaches past its end; the executable load segment of
/// entry `i` reaches past its end; or no byte of any executable load segment is left to
/// hash once the header and the integrity block are cut out.
pub proof fn lemma_hash_range_errors(d: Seq<u8>, i: u16)
    requires
        d.len() <= usize::MAX,
    ensures
        spec_hash_ranges(d) == Scan::Failed(IntegrityError::TooSmall) <==> d.len() < 64,
        spec_hash_ranges(d) == Scan::Failed(IntegrityError::NotElf) <==> (d.len() >= 64 && !(d[0]
            == 0x7f && d[1] == 0x45 && d[2] == 0x4c && d[3] == 0x46)),
        spec_hash_ranges(d) == Scan::Failed(IntegrityError::NoProgramHeaders) <==> (d.len() >= 64
            && d[0] == 0x7f && d[1] == 0x45 && d[2] == 0x4c && d[3] == 0x46 && (elf_info_of(d).phnum
            == 0 || elf_info_of(d).phoff == 0)),
        spec_hash_ranges(d) == Scan::Failed(IntegrityError::TagNotFound) ==> forall|j: int| !tag_at(d, j),
        spec_hash_ranges(d) == Scan::Failed(IntegrityError::HeaderBeyondFile(i)) ==> {
            let info = elf_info_of(d);
            &&& i < info.phnum
            &&& info.phoff + i * info.phentsize + info.phentsize > d.len()
        },
        spec_hash_ranges(d) == Scan::Failed(IntegrityError::SegmentBeyondFile(i)) ==> {
            let info = elf_info_of(d);
            &&& i < info.phnum
            &&& exists|start: int, size: int|
                #[trigger] exec_segment(d, info, i as int, start, size) && start + size > d.len()
        },
        spec_hash_ranges(d) == Scan::Failed(IntegrityError::NoHashableData) ==> forall|b: int|
            !#[trigger] authenticated(d, elf_info_of(d), image_tag(d), elf_info_of(d).phnum as int, b),
{
    let info = elf_info_of(d);
    lemma_find_tag(d);
    if d.len() >= 64 && d[0] == 0x7f && d[1] == 0x45 && d[2] == 0x4c && d[3] == 0x46 && info.phnum != 0
        && info.phoff != 0 && spec_find_tag(d) is Some {
        let t = image_tag(d);
        assert(tag_at(d, t));
        let n = info.phnum as nat;
        let sc = scan_entries(d, info, t, n);
        if !(sc is Ranges) {
            lemma_scan_stop_entry(d, info, t, n);
            let idx = choose|idx: int| 0 <= idx < n && #[trigger] scan_entry(d, info, t, idx) == sc;
            let off = entry_offset(info, idx);
            let w = addr_width(info);
            let start = uint_at(d, off + start_field(info), w, info.le) as int;
            let size = uint_at(d, off + size_field(info), w, info.le) as int;
            if sc == Scan::Failed(IntegrityError::SegmentBeyondFile(i)) {
                assert(exec_segment(d, info, i as int, start, size));
            }
        } else {
            let r = sc->Ranges_0;
            if r.len() == 0 {
                lemma_scan_entries(d, info, t, n, r);
            }
        }
    }
}

/// The scan is unreadable only where a field it must read lies past the end of the image:
/// some program header entry lies inside the image, yet its p_type, or (for a load
/// segment) its p_flags, or (for an executable load segment) its p_offset or p_filesz
/// does not. For ELF64 these fields end 4, 8, 16 and 40 bytes into the entry; for ELF32,
/// 4, 28, 8 and 20.
pub proof fn lemma_unreadable_means_out_of_bounds(d: Seq<u8>)
    requires
        spec_hash_ranges(d) is Unreadable,
    ensures
        ({
            let info = elf_info_of(d);
            let le = info.le;
            exists|idx: int|
                0 <= idx < info.phnum && {
                    let off = #[trigger] entry_offset(info, idx);
                    &&& off + info.phentsize <= d.len()
                    &&& (off + 4 > d.len() || (uint_at(d, off, 4, le) == PT_LOAD && if info.is_64 {
                        off + 8 > d.len() || ((uint_at(d, off + 4, 4, le) as u32) & PF_X != 0
                            && off + 40 > d.len())
                    } else {
                        off + 28 > d.len() || ((uint_at(d, off + 24, 4, le) as u32) & PF_X != 0
                            && off + 20 > d.len())
                    }))
                }
        }),
{
    let info = elf_info_of(d);
    let t = image_tag(d);
    let n = info.phnum as nat;
    lemma_scan_stop_entry(d, info, t, n);
    let idx = choose|idx: int| 0 <= idx < n && #[trigger] scan_entry(d, info, t, idx) == scan_entries(d, info, t, n);
    assert(entry_offset(info, idx) == entry_offset(info, idx));
}

} // verus!
