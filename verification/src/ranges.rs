//! Which byte ranges of an executable image are authenticated: the executable load
//! segments, minus the ELF header and the embedded integrity block.

use vstd::prelude::*;
use crate::block::{find_tag_offset, spec_block_size, spec_find_tag};
use crate::bytes::{read_u32, read_u64, uint_at};
use crate::elf::{parse_elf_header, spec_parse_elf_header, ElfInfo};
use crate::error::IntegrityError;
use crate::order::{sort_by_offset, sort_ranges_by_offset};

verus! {

/// Program header type of a loadable segment.
pub const PT_LOAD: u32 = 1;
/// Program header flag of an executable segment.
pub const PF_X: u32 = 1;

/// The outcome of scanning (part of) an image, in the model of the scan.
pub enum Scan {
    /// The scan goes on, or has ended, with these `(offset, length)` ranges.
    Ranges(Seq<(usize, usize)>),
    /// The image is rejected with this error.
    Failed(IntegrityError),
    /// The scan would read a program header field that lies outside the image.
    Unreadable,
}

/// Order on cut intervals: by start, then by end.
pub open spec fn cut_before(a: (usize, usize), b: (usize, usize)) -> bool {
    a.0 < b.0 || (a.0 == b.0 && a.1 < b.1)
}

/// The larger of two integers.
pub open spec fn max_int(a: int, b: int) -> int {
    if a >= b {
        a
    } else {
        b
    }
}

/// The smaller of two integers.
pub open spec fn min_int(a: int, b: int) -> int {
    if a <= b {
        a
    } else {
        b
    }
}

/// The parts of the segment `[start, end)` that must not be hashed, in order: the overlap
/// with the integrity block at `tag_off` and the overlap with the ELF header `[0, ehsize)`.
pub open spec fn cut_intervals(start: int, end: int, tag_off: int, ehsize: int) -> Seq<(usize, usize)> {
    let block_end = tag_off + spec_block_size();
    let block_cut: Seq<(usize, usize)> = if block_end > start && tag_off < end {
        seq![(max_int(tag_off, start) as usize, min_int(block_end, end) as usize)]
    } else {
        seq![]
    };
    let header_cut: Seq<(usize, usize)> = if ehsize > start && 0 < end {
        seq![(start as usize, min_int(ehsize, end) as usize)]
    } else {
        seq![]
    };
    let cuts = block_cut + header_cut;
    if cuts.len() == 2 && cut_before(cuts[1], cuts[0]) {
        seq![cuts[1], cuts[0]]
    } else {
        cuts
    }
}

/// The `(offset, length)` pieces of `[pos, end)` that lie between the given cuts.
pub open spec fn pieces_from(pos: int, end: int, cuts: Seq<(usize, usize)>) -> Seq<(usize, usize)>
    decreases cuts.len(),
{
    if cuts.len() == 0 {
        if pos < end {
            seq![(pos as usize, (end - pos) as usize)]
        } else {
            seq![]
        }
    } else {
        let c = cuts[0];
        let head: Seq<(usize, usize)> = if c.0 > pos {
            seq![(pos as usize, (c.0 - pos) as usize)]
        } else {
            seq![]
        };
        head + pieces_from(max_int(pos, c.1 as int), end, cuts.drop_first())
    }
}

/// The hashable pieces of the segment `[start, end)`.
pub open spec fn segment_pieces(start: int, end: int, tag_off: int, ehsize: int) -> Seq<(usize, usize)> {
    pieces_from(start, end, cut_intervals(start, end, tag_off, ehsize))
}

/// File offset of program header entry `idx`.
pub open spec fn entry_offset(info: ElfInfo, idx: int) -> int {
    info.phoff + idx * info.phentsize
}

/// Width in bytes of the segment offset and size fields of a program header entry.
pub open spec fn addr_width(info: ElfInfo) -> nat {
    if info.is_64 {
        8
    } else {
        4
    }
}

/// Offset of the `p_flags` field relative to the start of an entry.
pub open spec fn flags_field(info: ElfInfo) -> int {
    if info.is_64 {
        4
    } else {
        24
    }
}

/// Offset of the `p_offset` field relative to the start of an entry.
pub open spec fn start_field(info: ElfInfo) -> int {
    if info.is_64 {
        8
    } else {
        4
    }
}

/// Offset of the `p_filesz` field relative to the start of an entry.
pub open spec fn size_field(info: ElfInfo) -> int {
    if info.is_64 {
        32
    } else {
        16
    }
}

/// Program header entry `idx` describes an executable load segment with file offset
/// `start` and nonzero file size `size` (all its fields lying inside `d`).
pub open spec fn exec_segment(d: Seq<u8>, info: ElfInfo, idx: int, start: int, size: int) -> bool {
    let off = entry_offset(info, idx);
    let w = addr_width(info);
    &&& off + info.phentsize <= d.len()
    &&& off + 4 <= d.len()
    &&& uint_at(d, off, 4, info.le) == PT_LOAD
    &&& off + flags_field(info) + 4 <= d.len()
    &&& (uint_at(d, off + flags_field(info), 4, info.le) as u32) & PF_X != 0
    &&& off + start_field(info) + w <= d.len()
    &&& off + size_field(info) + w <= d.len()
    &&& start == uint_at(d, off + start_field(info), w, info.le)
    &&& size == uint_at(d, off + size_field(info), w, info.le)
    &&& size != 0
}

/// The executable load segments are read from the program header entries as ELF lays
/// them out. An ELF64 entry holds p_type (4 bytes at 0), p_flags (4 at 4), p_offset (8 at
/// 8) and p_filesz (8 at 32); an ELF32 entry holds p_type (4 at 0), p_offset (4 at 4),
/// p_filesz (4 at 16) and p_flags (4 at 24). The segment is the file bytes
/// `[p_offset, p_offset + p_filesz)` of an entry of type PT_LOAD whose flags hold PF_X.
pub proof fn lemma_exec_segment_layout(d: Seq<u8>, info: ElfInfo, idx: int, start: int, size: int)
    ensures
        exec_segment(d, info, idx, start, size) <==> ({
            let off = info.phoff + idx * info.phentsize;
            let le = info.le;
            &&& off + info.phentsize <= d.len()
            &&& size != 0
            &&& if info.is_64 {
                &&& off + 40 <= d.len()
                &&& uint_at(d, off, 4, le) == PT_LOAD
                &&& (uint_at(d, off + 4, 4, le) as u32) & PF_X != 0
                &&& start == uint_at(d, off + 8, 8, le)
                &&& size == uint_at(d, off + 32, 8, le)
            } else {
                &&& off + 28 <= d.len()
                &&& uint_at(d, off, 4, le) == PT_LOAD
                &&& (uint_at(d, off + 24, 4, le) as u32) & PF_X != 0
                &&& start == uint_at(d, off + 4, 4, le)
                &&& size == uint_at(d, off + 16, 4, le)
            }
        }),
{
}

/// What program header entry `idx` contributes to the scan.
pub open spec fn scan_entry(d: Seq<u8>, info: ElfInfo, tag_off: int, idx: int) -> Scan {
    let len = d.len() as int;
    let off = entry_offset(info, idx);
    let le = info.le;
    let w = addr_width(info);
    if off + info.phentsize > len {
        Scan::Failed(IntegrityError::HeaderBeyondFile(idx as u16))
    } else if off + 4 > len {
        Scan::Unreadable
    } else if uint_at(d, off, 4, le) != PT_LOAD {
        Scan::Ranges(seq![])
    } else if off + flags_field(info) + 4 > len {
        Scan::Unreadable
    } else if (uint_at(d, off + flags_field(info), 4, le) as u32) & PF_X == 0 {
        Scan::Ranges(seq![])
    } else if off + start_field(info) + w > len || off + size_field(info) + w > len {
        Scan::Unreadable
    } else {
        let start = uint_at(d, off + start_field(info), w, le) as int;
        let size = uint_at(d, off + size_field(info), w, le) as int;
        if size == 0 {
            Scan::Ranges(seq![])
        } else if start + size > len {
            Scan::Failed(IntegrityError::SegmentBeyondFile(idx as u16))
        } else {
            Scan::Ranges(segment_pieces(start, start + size, tag_off, info.ehsize as int))
        }
    }
}

/// The scan over the first `n` program header entries.
pub open spec fn scan_entries(d: Seq<u8>, info: ElfInfo, tag_off: int, n: nat) -> Scan
    decreases n,
{
    if n == 0 {
        Scan::Ranges(seq![])
    } else {
        match scan_entries(d, info, tag_off, (n - 1) as nat) {
            Scan::Ranges(r) => match scan_entry(d, info, tag_off, n - 1) {
                Scan::Ranges(p) => Scan::Ranges(r + p),
                other => other,
            },
            other => other,
        }
    }
}

/// Once the scan has stopped, later entries change nothing.
pub proof fn lemma_scan_stops(d: Seq<u8>, info: ElfInfo, tag_off: int, n: nat, m: nat)
    requires
        n <= m,
        !(scan_entries(d, info, tag_off, n) is Ranges),
    ensures
        scan_entries(d, info, tag_off, m) == scan_entries(d, info, tag_off, n),
    decreases m,
{
    if n < m {
        lemma_scan_stops(d, info, tag_off, n, (m - 1) as nat);
    }
}

/// The hash ranges of image `d`, sorted by offset, or why there are none.
pub open spec fn spec_hash_ranges(d: Seq<u8>) -> Scan {
    match spec_parse_elf_header(d) {
        Err(e) => Scan::Failed(e),
        Ok(info) => if info.phnum == 0 || info.phoff == 0 {
            Scan::Failed(IntegrityError::NoProgramHeaders)
        } else {
            match spec_find_tag(d) {
                None => Scan::Failed(IntegrityError::TagNotFound),
                Some(tag_off) => match scan_entries(d, info, tag_off, info.phnum as nat) {
                    Scan::Ranges(r) => if r.len() == 0 {
                        Scan::Failed(IntegrityError::NoHashableData)
                    } else {
                        Scan::Ranges(sort_by_offset(r))
                    },
                    other => other,
                },
            }
        },
    }
}

/// The model outcome that an executable scan result stands for.
pub open spec fn scan_outcome(r: Option<Result<Vec<(usize, usize)>, IntegrityError>>) -> Scan {
    match r {
        None => Scan::Unreadable,
        Some(Ok(v)) => Scan::Ranges(v@),
        Some(Err(e)) => Scan::Failed(e),
    }
}

/// The cuts of the segment `[seg_start, seg_end)`, as `cut_intervals` orders them.
fn segment_cuts(seg_start: usize, seg_end: usize, tag_off: usize, ehsize: usize) -> (r: Vec<(usize, usize)>)
    requires
        seg_start < seg_end,
    ensures
        r@ == cut_intervals(seg_start as int, seg_end as int, tag_off as int, ehsize as int),
{
    let block_end: u128 = tag_off as u128 + 80;
    let mut cuts: Vec<(usize, usize)> = Vec::new();
    if block_end > seg_start as u128 && tag_off < seg_end {
        let c_start = if tag_off >= seg_start {
            tag_off
        } else {
            seg_start
        };
        let c_end = if block_end <= seg_end as u128 {
            block_end as usize
        } else {
            seg_end
        };
        cuts.push((c_start, c_end));
    }
    if ehsize > seg_start && 0 < seg_end {
        let c_end = if ehsize <= seg_end {
            ehsize
        } else {
            seg_end
        };
        cuts.push((seg_start, c_end));
    }
    if cuts.len() == 2 {
        let a = cuts[0];
        let b = cuts[1];
        if b.0 < a.0 || (b.0 == a.0 && b.1 < a.1) {
            cuts = vec![b, a];
        }
    }
    proof {
        let spec_cuts = cut_intervals(seg_start as int, seg_end as int, tag_off as int, ehsize as int);
        assert(cuts@ =~= spec_cuts);
    }
    cuts
}

/// Appends the pieces of `[seg_start, seg_end)` that lie between `cuts`.
fn push_pieces(seg_start: usize, seg_end: usize, cuts: &Vec<(usize, usize)>, ranges: &mut Vec<(usize, usize)>)
    ensures
        final(ranges)@ == old(ranges)@ + pieces_from(seg_start as int, seg_end as int, cuts@),
{
    let mut pos = seg_start;
    let mut k: usize = 0;
    assert(cuts@.skip(0) =~= cuts@);
    while k < cuts.len()
        invariant
            k <= cuts@.len(),
            old(ranges)@ + pieces_from(seg_start as int, seg_end as int, cuts@) == ranges@
                + pieces_from(pos as int, seg_end as int, cuts@.skip(k as int)),
        decreases cuts@.len() - k,
    {
        let c = cuts[k];
        let ghost before = ranges@;
        let ghost rest = cuts@.skip(k as int);
        assert(rest.drop_first() =~= cuts@.skip(k + 1));
        assert(rest[0] == c);
        if c.0 > pos {
            ranges.push((pos, c.0 - pos));
            assert(ranges@ =~= before + seq![(pos, (c.0 - pos) as usize)]);
        }
        if c.1 > pos {
            pos = c.1;
        }
        k = k + 1;
    }
    let ghost before = ranges@;
    assert(cuts@.skip(k as int).len() == 0);
    if pos < seg_end {
        ranges.push((pos, seg_end - pos));
        assert(ranges@ =~= before + seq![(pos, (seg_end - pos) as usize)]);
    } else {
        assert(ranges@ =~= before + Seq::<(usize, usize)>::empty());
    }
}

/// Scans program header entry `idx` and appends what it contributes to `ranges`.
fn scan_entry_into(
    data: &[u8],
    info: &ElfInfo,
    tag_off: usize,
    idx: u16,
    ranges: &mut Vec<(usize, usize)>,
) -> (r: Option<Result<(), IntegrityError>>)
    ensures
        match scan_entry(data@, *info, tag_off as int, idx as int) {
            Scan::Ranges(p) => r == Some(Ok::<(), IntegrityError>(())) && final(ranges)@ == old(
                ranges,
            )@ + p,
            Scan::Failed(e) => r == Some(Err::<(), IntegrityError>(e)),
            Scan::Unreadable => r is None,
        },
{
    let len = data.len();
    let len64 = len as u64;
    let le = info.le;
    let i64v = idx as u64;
    let e64v = info.phentsize as u64;
    assert(i64v * e64v <= 0xffff * 0xffff) by (nonlinear_arith)
        requires
            i64v <= 0xffff,
            e64v <= 0xffff,
    ;
    let prod: u64 = i64v * e64v;
    let off = match info.phoff.checked_add(prod) {
        Some(o) => o,
        None => {
            return Some(Err(IntegrityError::HeaderBeyondFile(idx)));
        },
    };
    let entry_end = match off.checked_add(info.phentsize as u64) {
        Some(e) => e,
        None => {
            return Some(Err(IntegrityError::HeaderBeyondFile(idx)));
        },
    };
    if entry_end > len64 {
        return Some(Err(IntegrityError::HeaderBeyondFile(idx)));
    }
    let off = off as usize;
    if len - off < 4 {
        return None;
    }
    let p_type = read_u32(data, off, le);
    if p_type != PT_LOAD {
        assert(ranges@ =~= old(ranges)@ + Seq::<(usize, usize)>::empty());
        return Some(Ok(()));
    }
    let flags_at: usize = if info.is_64 {
        4
    } else {
        24
    };
    if len - off < flags_at + 4 {
        return None;
    }
    let p_flags = read_u32(data, off + flags_at, le);
    if p_flags & PF_X == 0 {
        assert(ranges@ =~= old(ranges)@ + Seq::<(usize, usize)>::empty());
        return Some(Ok(()));
    }
    let (p_offset, p_filesz): (u64, u64) = if info.is_64 {
        if len - off < 40 {
            return None;
        }
        (read_u64(data, off + 8, le), read_u64(data, off + 32, le))
    } else {
        if len - off < 20 {
            return None;
        }
        (read_u32(data, off + 4, le) as u64, read_u32(data, off + 16, le) as u64)
    };
    if p_filesz == 0 {
        assert(ranges@ =~= old(ranges)@ + Seq::<(usize, usize)>::empty());
        return Some(Ok(()));
    }
    let seg_end = match p_offset.checked_add(p_filesz) {
        Some(e) => e,
        None => {
            return Some(Err(IntegrityError::SegmentBeyondFile(idx)));
        },
    };
    if seg_end > len64 {
        return Some(Err(IntegrityError::SegmentBeyondFile(idx)));
    }
    let seg_start = p_offset as usize;
    let seg_end = seg_end as usize;
    let cuts = segment_cuts(seg_start, seg_end, tag_off, info.ehsize as usize);
    push_pieces(seg_start, seg_end, &cuts, ranges);
    Some(Ok(()))
}

/// Scans `data`, answering `None` where a program header field would be read from
/// outside the image.
fn scan_hash_ranges(data: &[u8]) -> (r: Option<Result<Vec<(usize, usize)>, IntegrityError>>)
    ensures
        scan_outcome(r) == spec_hash_ranges(data@),
{
    let info = match parse_elf_header(data) {
        Ok(i) => i,
        Err(e) => {
            return Some(Err(e));
        },
    };
    if info.phnum == 0 || info.phoff == 0 {
        return Some(Err(IntegrityError::NoProgramHeaders));
    }
    let tag_off = match find_tag_offset(data) {
        Some(t) => t,
        None => {
            return Some(Err(IntegrityError::TagNotFound));
        },
    };
    let mut ranges: Vec<(usize, usize)> = Vec::new();
    let mut idx: u16 = 0;
    while idx < info.phnum
        invariant
            idx <= info.phnum,
            info.phnum != 0 && info.phoff != 0,
            spec_parse_elf_header(data@) == Ok::<ElfInfo, IntegrityError>(info),
            spec_find_tag(data@) == Some(tag_off as int),
            scan_entries(data@, info, tag_off as int, idx as nat) == Scan::Ranges(ranges@),
        decreases info.phnum - idx,
    {
        match scan_entry_into(data, &info, tag_off, idx, &mut ranges) {
            None => {
                proof {
                    assert(scan_entries(data@, info, tag_off as int, (idx + 1) as nat) == Scan::Unreadable);
                    lemma_scan_stops(data@, info, tag_off as int, (idx + 1) as nat, info.phnum as nat);
                }
                return None;
            },
            Some(Err(e)) => {
                proof {
                    assert(scan_entries(data@, info, tag_off as int, (idx + 1) as nat) == Scan::Failed(e));
                    lemma_scan_stops(data@, info, tag_off as int, (idx + 1) as nat, info.phnum as nat);
                }
                return Some(Err(e));
            },
            Some(Ok(())) => {},
        }
        idx = idx + 1;
    }
    if ranges.len() == 0 {
        return Some(Err(IntegrityError::NoHashableData));
    }
    Some(Ok(sort_ranges_by_offset(&ranges)))
}

/// Whether scanning `data` stays inside the image, so that `collect_hash_ranges` may be
/// called on it.
pub fn hash_ranges_readable(data: &[u8]) -> (r: bool)
    ensures
        r == !(spec_hash_ranges(data@) is Unreadable),
{
    scan_hash_ranges(data).is_some()
}

/// The `(offset, length)` ranges of `data` that the integrity HMAC covers, sorted by
/// offset: every executable load segment, minus the ELF header and the integrity block.
pub fn collect_hash_ranges(data: &[u8]) -> (r: Result<Vec<(usize, usize)>, IntegrityError>)
    requires
        !(spec_hash_ranges(data@) is Unreadable),
    ensures
        match r {
            Ok(v) => spec_hash_ranges(data@) == Scan::Ranges(v@),
            Err(e) => spec_hash_ranges(data@) == Scan::Failed(e),
        },
{
    match scan_hash_ranges(data) {
        Some(r) => r,
        // excluded by the precondition
        None => Err(IntegrityError::NoHashableData),
    }
}

} // verus!
