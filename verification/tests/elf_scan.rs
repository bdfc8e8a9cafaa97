use jitterentropy_rustrngd::order::sort_ranges_by_offset;
use jitterentropy_rustrngd::text::{push_decimal, push_hex_number, push_signed_decimal};
use jitterentropy_rustrngd::block::{block_size, find_tag_offset, INTEGRITY_TAG};
use jitterentropy_rustrngd::bytes::{read_u16, read_u32, read_u64};
use jitterentropy_rustrngd::elf::parse_elf_header;
use jitterentropy_rustrngd::error::IntegrityError;
use jitterentropy_rustrngd::ranges::{collect_hash_ranges, hash_ranges_readable};

fn put(buf: &mut [u8], off: usize, bytes: &[u8]) {
    buf[off..off + bytes.len()].copy_from_slice(bytes);
}

/// A little-endian 64-bit ELF image of `len` bytes with one program header entry at 64
/// (type, flags, offset, size as given) and the integrity block at `tag_off`.
fn elf64(len: usize, p_type: u32, p_flags: u32, p_offset: u64, p_filesz: u64, tag_off: usize) -> Vec<u8> {
    let mut d = vec![0u8; len];
    put(&mut d, 0, &[0x7f, b'E', b'L', b'F', 2, 1, 1]);
    put(&mut d, 32, &64u64.to_le_bytes());
    put(&mut d, 52, &64u16.to_le_bytes());
    put(&mut d, 54, &56u16.to_le_bytes());
    put(&mut d, 56, &1u16.to_le_bytes());
    put(&mut d, 64, &p_type.to_le_bytes());
    put(&mut d, 68, &p_flags.to_le_bytes());
    put(&mut d, 72, &p_offset.to_le_bytes());
    put(&mut d, 96, &p_filesz.to_le_bytes());
    put(&mut d, tag_off, &INTEGRITY_TAG);
    d
}

/// A big-endian 32-bit ELF image with one executable load segment covering the file.
fn elf32_be(len: usize, tag_off: usize) -> Vec<u8> {
    let mut d = vec![0u8; len];
    put(&mut d, 0, &[0x7f, b'E', b'L', b'F', 1, 2, 1]);
    put(&mut d, 28, &52u32.to_be_bytes());
    put(&mut d, 40, &52u16.to_be_bytes());
    put(&mut d, 42, &32u16.to_be_bytes());
    put(&mut d, 44, &1u16.to_be_bytes());
    put(&mut d, 52, &1u32.to_be_bytes());
    put(&mut d, 56, &0u32.to_be_bytes());
    put(&mut d, 68, &(len as u32).to_be_bytes());
    put(&mut d, 76, &5u32.to_be_bytes());
    put(&mut d, tag_off, &INTEGRITY_TAG);
    d
}

#[test]
fn reads_both_byte_orders() {
    let d = [1u8, 2, 3, 4, 5, 6, 7, 8, 9];
    assert_eq!(read_u16(&d, 0, true), 0x0201);
    assert_eq!(read_u16(&d, 0, false), 0x0102);
    assert_eq!(read_u32(&d, 1, true), 0x05040302);
    assert_eq!(read_u32(&d, 1, false), 0x02030405);
    assert_eq!(read_u64(&d, 1, true), 0x0908070605040302);
    assert_eq!(read_u64(&d, 0, false), 0x0102030405060708);
}

#[test]
fn header_of_too_small_image_is_rejected() {
    let d = vec![0x7fu8, b'E', b'L', b'F'];
    assert_eq!(parse_elf_header(&d).err(), Some(IntegrityError::TooSmall));
    assert_eq!(IntegrityError::TooSmall.message(), "ELF file too small");
}

#[test]
fn header_without_magic_is_rejected() {
    let d = vec![0u8; 64];
    assert_eq!(parse_elf_header(&d).err(), Some(IntegrityError::NotElf));
    assert_eq!(IntegrityError::NotElf.message(), "not an ELF file");
}

#[test]
fn header_fields_64_and_32_bit() {
    let d = elf64(400, 1, 5, 0, 400, 200);
    let info = parse_elf_header(&d).ok().unwrap();
    assert_eq!((info.phoff, info.phentsize, info.phnum, info.ehsize), (64, 56, 1, 64));
    assert!(info.is_64 && info.le);
    let d = elf32_be(300, 150);
    let info = parse_elf_header(&d).ok().unwrap();
    assert_eq!((info.phoff, info.phentsize, info.phnum, info.ehsize), (52, 32, 1, 52));
    assert!(!info.is_64 && !info.le);
}

#[test]
fn tag_is_found_at_first_occurrence() {
    let mut d = vec![0u8; 100];
    assert_eq!(find_tag_offset(&d), None);
    put(&mut d, 70, &INTEGRITY_TAG);
    put(&mut d, 30, &INTEGRITY_TAG);
    assert_eq!(find_tag_offset(&d), Some(30));
    assert_eq!(find_tag_offset(&INTEGRITY_TAG), Some(0));
    assert_eq!(find_tag_offset(&INTEGRITY_TAG[1..]), None);
    assert_eq!(&INTEGRITY_TAG, b"JENTRNG_INTG_TAG");
}

#[test]
fn block_is_eighty_bytes() {
    assert_eq!(block_size(), 80);
}

#[test]
fn ranges_skip_header_and_block() {
    let d = elf64(400, 1, 5, 0, 400, 200);
    assert!(hash_ranges_readable(&d));
    assert_eq!(collect_hash_ranges(&d).ok().unwrap(), vec![(64, 136), (280, 120)]);
}

#[test]
fn ranges_of_32_bit_big_endian_image() {
    let d = elf32_be(300, 150);
    assert_eq!(collect_hash_ranges(&d).ok().unwrap(), vec![(52, 98), (230, 70)]);
}

#[test]
fn block_at_segment_edges_is_cut_off() {
    // segment [100, 250) with the block at [80, 160) and none of the header
    let d = elf64(400, 1, 1, 100, 150, 80);
    assert_eq!(collect_hash_ranges(&d).ok().unwrap(), vec![(160, 90)]);
    // segment [64, 200) ending inside the block at [150, 230)
    let d = elf64(400, 1, 1, 64, 136, 150);
    assert_eq!(collect_hash_ranges(&d).ok().unwrap(), vec![(64, 86)]);
}

#[test]
fn non_executable_or_non_load_segments_are_ignored() {
    let d = elf64(400, 1, 4, 0, 400, 200);
    assert_eq!(collect_hash_ranges(&d).err(), Some(IntegrityError::NoHashableData));
    let d = elf64(400, 2, 5, 0, 400, 200);
    assert_eq!(collect_hash_ranges(&d).err(), Some(IntegrityError::NoHashableData));
    let d = elf64(400, 1, 5, 100, 0, 200);
    assert_eq!(collect_hash_ranges(&d).err(), Some(IntegrityError::NoHashableData));
    assert_eq!(
        IntegrityError::NoHashableData.message(),
        "no hashable data in executable load segments"
    );
}

#[test]
fn segment_inside_header_and_block_has_nothing_to_hash() {
    let d = elf64(400, 1, 5, 0, 64, 200);
    assert_eq!(collect_hash_ranges(&d).err(), Some(IntegrityError::NoHashableData));
    let d = elf64(400, 1, 5, 210, 40, 200);
    assert_eq!(collect_hash_ranges(&d).err(), Some(IntegrityError::NoHashableData));
}

#[test]
fn missing_program_headers_are_rejected() {
    let mut d = elf64(400, 1, 5, 0, 400, 200);
    put(&mut d, 56, &0u16.to_le_bytes());
    assert_eq!(collect_hash_ranges(&d).err(), Some(IntegrityError::NoProgramHeaders));
    let mut d = elf64(400, 1, 5, 0, 400, 200);
    put(&mut d, 32, &0u64.to_le_bytes());
    assert_eq!(collect_hash_ranges(&d).err(), Some(IntegrityError::NoProgramHeaders));
    assert_eq!(IntegrityError::NoProgramHeaders.message(), "no program headers");
}

#[test]
fn missing_tag_is_rejected() {
    let mut d = elf64(400, 1, 5, 0, 400, 200);
    put(&mut d, 200, &[0u8; 16]);
    assert_eq!(collect_hash_ranges(&d).err(), Some(IntegrityError::TagNotFound));
    assert_eq!(IntegrityError::TagNotFound.message(), "integrity tag not found in binary");
}

#[test]
fn header_entry_beyond_file_is_rejected() {
    let mut d = elf64(400, 1, 5, 0, 400, 200);
    put(&mut d, 32, &390u64.to_le_bytes());
    assert_eq!(collect_hash_ranges(&d).err(), Some(IntegrityError::HeaderBeyondFile(0)));
    // an offset so large that the sum wraps a machine word is beyond the file too
    put(&mut d, 32, &u64::MAX.to_le_bytes());
    assert_eq!(collect_hash_ranges(&d).err(), Some(IntegrityError::HeaderBeyondFile(0)));
    assert_eq!(
        IntegrityError::HeaderBeyondFile(3).message(),
        "program header entry 3 extends beyond file"
    );
}

#[test]
fn segment_beyond_file_is_rejected() {
    let d = elf64(400, 1, 5, 100, 301, 200);
    assert_eq!(collect_hash_ranges(&d).err(), Some(IntegrityError::SegmentBeyondFile(0)));
    let d = elf64(400, 1, 5, u64::MAX, 2, 200);
    assert_eq!(collect_hash_ranges(&d).err(), Some(IntegrityError::SegmentBeyondFile(0)));
    assert_eq!(
        IntegrityError::SegmentBeyondFile(12).message(),
        "executable load segment 12 extends beyond file"
    );
}

#[test]
fn entry_too_short_for_its_fields_is_unreadable() {
    // entry size 0 at the very end of the image: reading p_type would leave the image
    let mut d = elf64(400, 1, 5, 0, 400, 200);
    put(&mut d, 54, &0u16.to_le_bytes());
    put(&mut d, 32, &398u64.to_le_bytes());
    assert!(!hash_ranges_readable(&d));
    // entry size 4 near the end: p_type says load, the flags lie outside the image
    let mut d = elf64(400, 1, 5, 0, 400, 200);
    put(&mut d, 54, &4u16.to_le_bytes());
    put(&mut d, 32, &396u64.to_le_bytes());
    put(&mut d, 396, &1u32.to_le_bytes());
    assert!(!hash_ranges_readable(&d));
    // the same short entry of another type is simply skipped
    put(&mut d, 396, &6u32.to_le_bytes());
    assert!(hash_ranges_readable(&d));
    assert_eq!(collect_hash_ranges(&d).err(), Some(IntegrityError::NoHashableData));
}

#[test]
fn ranges_of_several_segments_are_sorted_by_offset() {
    let mut d = elf64(600, 1, 5, 400, 100, 300);
    put(&mut d, 56, &2u16.to_le_bytes());
    // second entry at 120: executable load segment [150, 250)
    put(&mut d, 120, &1u32.to_le_bytes());
    put(&mut d, 124, &1u32.to_le_bytes());
    put(&mut d, 128, &150u64.to_le_bytes());
    put(&mut d, 152, &100u64.to_le_bytes());
    assert_eq!(collect_hash_ranges(&d).ok().unwrap(), vec![(150, 100), (400, 100)]);
}

#[test]
fn sorting_is_stable_by_offset() {
    let v = vec![(5, 1), (3, 2), (5, 0), (1, 1), (3, 1)];
    assert_eq!(sort_ranges_by_offset(&v), vec![(1, 1), (3, 2), (3, 1), (5, 1), (5, 0)]);
    assert_eq!(sort_ranges_by_offset(&vec![]), vec![]);
}

#[test]
fn numbers_render_like_format() {
    for n in [0u64, 7, 10, 255, 4096, u64::MAX] {
        let mut s = String::new();
        push_decimal(&mut s, n);
        assert_eq!(s, format!("{}", n));
        let mut s = String::from("x");
        push_hex_number(&mut s, n);
        assert_eq!(s, format!("x{:x}", n));
    }
    for n in [0i64, -1, 42, i64::MIN, i64::MAX] {
        let mut s = String::new();
        push_signed_decimal(&mut s, n);
        assert_eq!(s, format!("{}", n));
    }
}
