//! The ways an executable image can fail the integrity scan.

use vstd::prelude::*;
use crate::text::{decimal, push_decimal};

verus! {

/// Why no set of hash ranges could be taken from an executable image.
#[derive(Debug, Clone, Copy, PartialEq, Eq, Structural)]
pub enum IntegrityError {
    /// The image is shorter than a 64-bit ELF header.
    TooSmall,
    /// The image does not start with the ELF magic number.
    NotElf,
    /// The header announces no program header table.
    NoProgramHeaders,
    /// The integrity tag occurs nowhere in the image.
    TagNotFound,
    /// Program header entry of this index reaches past the end of the image.
    HeaderBeyondFile(u16),
    /// The executable load segment of this program header index reaches past the end of the image.
    SegmentBeyondFile(u16),
    /// Every executable load segment is empty once the header and the integrity block are cut out.
    NoHashableData,
}

impl IntegrityError {
    /// The diagnostic text for this error.
    pub open spec fn spec_message(self) -> Seq<char> {
        match self {
            IntegrityError::TooSmall => "ELF file too small"@,
            IntegrityError::NotElf => "not an ELF file"@,
            IntegrityError::NoProgramHeaders => "no program headers"@,
            IntegrityError::TagNotFound => "integrity tag not found in binary"@,
            IntegrityError::HeaderBeyondFile(idx) => "program header entry "@ + decimal(idx as nat)
                + " extends beyond file"@,
            IntegrityError::SegmentBeyondFile(idx) => "executable load segment "@ + decimal(
                idx as nat,
            ) + " extends beyond file"@,
            IntegrityError::NoHashableData => "no hashable data in executable load segments"@,
        }
    }

    /// The diagnostic text for this error.
    pub fn message(&self) -> (r: String)
        ensures
            r@ == self.spec_message(),
    {
        match self {
            IntegrityError::TooSmall => String::from_str("ELF file too small"),
            IntegrityError::NotElf => String::from_str("not an ELF file"),
            IntegrityError::NoProgramHeaders => String::from_str("no program headers"),
            IntegrityError::TagNotFound => String::from_str("integrity tag not found in binary"),
            IntegrityError::HeaderBeyondFile(idx) => {
                let mut s = String::from_str("program header entry ");
                push_decimal(&mut s, *idx as u64);
                s.append(" extends beyond file");
                s
            },
            IntegrityError::SegmentBeyondFile(idx) => {
                let mut s = String::from_str("executable load segment ");
                push_decimal(&mut s, *idx as u64);
                s.append(" extends beyond file");
                s
            },
            IntegrityError::NoHashableData => String::from_str(
                "no hashable data in executable load segments",
            ),
        }
    }
}

} // verus!
