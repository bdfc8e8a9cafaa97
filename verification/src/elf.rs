//! The few fields of an ELF file header that locate its program header table.

use vstd::prelude::*;
use crate::bytes::{
    be16, be32, be64, le16, le32, le64, lemma_uint_closed_forms, read_u16, read_u32, read_u64, uint_at,
};
use crate::error::IntegrityError;

verus! {

/// Index of the byte that gives the file class (1: 32-bit, 2: 64-bit).
pub const EI_CLASS: usize = 4;
/// Index of the byte that gives the data encoding (1: little-endian, 2: big-endian).
pub const EI_DATA: usize = 5;
/// The smallest image that is accepted as an ELF file.
pub const MIN_ELF_LEN: usize = 64;

/// What the integrity scan needs from the ELF file header.
pub struct ElfInfo {
    pub phoff: u64,
    pub phentsize: u16,
    pub phnum: u16,
    pub ehsize: u16,
    pub is_64: bool,
    pub le: bool,
}

/// `d` starts with the four bytes `0x7f 'E' 'L' 'F'`.
pub open spec fn has_elf_magic(d: Seq<u8>) -> bool {
    &&& d.len() >= 4
    &&& d[0] == 0x7fu8
    &&& d[1] == 0x45u8
    &&& d[2] == 0x4cu8
    &&& d[3] == 0x46u8
}

/// Offsets of e_phoff, e_phentsize, e_phnum and e_ehsize for the given class.
pub open spec fn header_field_offsets(is_64: bool) -> (int, int, int, int) {
    if is_64 {
        (32, 54, 56, 52)
    } else {
        (28, 42, 44, 40)
    }
}

/// The header fields as read from a well-formed image `d`.
pub open spec fn elf_info_of(d: Seq<u8>) -> ElfInfo {
    let is_64 = d[EI_CLASS as int] == 2;
    let le = d[EI_DATA as int] == 1;
    let (phoff_off, phentsize_off, phnum_off, ehsize_off) = header_field_offsets(is_64);
    ElfInfo {
        phoff: (if is_64 {
            uint_at(d, phoff_off, 8, le)
        } else {
            uint_at(d, phoff_off, 4, le)
        }) as u64,
        phentsize: uint_at(d, phentsize_off, 2, le) as u16,
        phnum: uint_at(d, phnum_off, 2, le) as u16,
        ehsize: uint_at(d, ehsize_off, 2, le) as u16,
        is_64,
        le,
    }
}

/// The result of parsing the ELF header of `d`.
pub open spec fn spec_parse_elf_header(d: Seq<u8>) -> Result<ElfInfo, IntegrityError> {
    if d.len() < MIN_ELF_LEN {
        Err(IntegrityError::TooSmall)
    } else if !has_elf_magic(d) {
        Err(IntegrityError::NotElf)
    } else {
        Ok(elf_info_of(d))
    }
}

/// Parses the parts of the ELF header that locate the program header table.
pub fn parse_elf_header(data: &[u8]) -> (r: Result<ElfInfo, IntegrityError>)
    ensures
        r == spec_parse_elf_header(data@),
{
    if data.len() < MIN_ELF_LEN {
        return Err(IntegrityError::TooSmall);
    }
    if !(data[0] == 0x7f && data[1] == 0x45 && data[2] == 0x4c && data[3] == 0x46) {
        return Err(IntegrityError::NotElf);
    }
    let is_64 = data[EI_CLASS] == 2;
    let le = data[EI_DATA] == 1;
    let (phoff_off, phentsize_off, phnum_off, ehsize_off): (usize, usize, usize, usize) = if is_64 {
        (32, 54, 56, 52)
    } else {
        (28, 42, 44, 40)
    };
    let phoff = if is_64 {
        read_u64(data, phoff_off, le)
    } else {
        read_u32(data, phoff_off, le) as u64
    };
    let phentsize = read_u16(data, phentsize_off, le);
    let phnum = read_u16(data, phnum_off, le);
    let ehsize = read_u16(data, ehsize_off, le);
    Ok(ElfInfo { phoff, phentsize, phnum, ehsize, is_64, le })
}

/// A parsed header takes its class from byte 4 and its byte order from byte 5 alone, for
/// either class, and reads each field at its place in the ELF32 or ELF64 header: e_phoff
/// (4 bytes at 28, or 8 at 32), e_ehsize (40 or 52), e_phentsize (42 or 54) and e_phnum
/// (44 or 56), little-endian when byte 5 is 1 and big-endian otherwise.
pub proof fn lemma_elf_header_fields(d: Seq<u8>)
    requires
        spec_parse_elf_header(d) is Ok,
    ensures
        ({
            let info = spec_parse_elf_header(d)->Ok_0;
            &&& d.len() >= 64
            &&& has_elf_magic(d)
            &&& info.is_64 == (d[4] == 2)
            &&& info.le == (d[5] == 1)
            &&& (info.is_64 && info.le) ==> info.phoff == le64(d, 32) && info.ehsize == le16(d, 52)
                && info.phentsize == le16(d, 54) && info.phnum == le16(d, 56)
            &&& (info.is_64 && !info.le) ==> info.phoff == be64(d, 32) && info.ehsize == be16(d, 52)
                && info.phentsize == be16(d, 54) && info.phnum == be16(d, 56)
            &&& (!info.is_64 && info.le) ==> info.phoff == le32(d, 28) && info.ehsize == le16(d, 40)
                && info.phentsize == le16(d, 42) && info.phnum == le16(d, 44)
            &&& (!info.is_64 && !info.le) ==> info.phoff == be32(d, 28) && info.ehsize == be16(d, 40)
                && info.phentsize == be16(d, 42) && info.phnum == be16(d, 44)
        }),
{
    lemma_uint_closed_forms(d, 28);
    lemma_uint_closed_forms(d, 32);
    lemma_uint_closed_forms(d, 40);
    lemma_uint_closed_forms(d, 42);
    lemma_uint_closed_forms(d, 44);
    lemma_uint_closed_forms(d, 52);
    lemma_uint_closed_forms(d, 54);
    lemma_uint_closed_forms(d, 56);
    crate::bytes::lemma_uint_bounds(d, 28);
    crate::bytes::lemma_uint_bounds(d, 32);
    crate::bytes::lemma_uint_bounds(d, 40);
    crate::bytes::lemma_uint_bounds(d, 42);
    crate::bytes::lemma_uint_bounds(d, 44);
    crate::bytes::lemma_uint_bounds(d, 52);
    crate::bytes::lemma_uint_bounds(d, 54);
    crate::bytes::lemma_uint_bounds(d, 56);
}

} // verus!
