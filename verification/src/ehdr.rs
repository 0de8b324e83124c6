//! The ELF identification block and the 64-bit file header.

use crate::bytes::{bytes_value, read_u16, read_u32, read_u64, Address};
use crate::parser::ParseError;
use vstd::prelude::*;

verus! {

/// Size in bytes of the identification block, the fixed prefix that
/// holds the data needed to parse the rest of the file.
pub const IDENT_SZ: usize = 16;

/// Width class of the file: only the 64-bit class is accepted here.
#[derive(Debug, PartialEq, Eq, Copy, Clone)]
pub enum ElfHClass {
    /// An invalid class.
    ElfClassIn,
    /// The 32-bit class.
    ElfClass32,
    /// The 64-bit class.
    ElfClass64,
}

/// Byte order of every multi-byte field in the file.
#[derive(Debug, PartialEq, Eq, Copy, Clone)]
pub enum ElfHData {
    /// Two's complement, least significant byte at the lowest address.
    ElfData2Lsb,
    /// Two's complement, most significant byte at the lowest address.
    ElfData2Msb,
}

/// Version of the identification block.
#[derive(Debug, PartialEq, Eq, Copy, Clone)]
pub enum ElfHVersion {
    /// An invalid version.
    ElfEvNone,
    /// The current version.
    ElfEvCurr,
}

impl ElfHVersion {
    /// The version a raw byte names, if any.
    pub open spec fn spec_from_u8(value: u8) -> Option<ElfHVersion> {
        if value == 0 {
            Some(ElfHVersion::ElfEvNone)
        } else if value == 1 {
            Some(ElfHVersion::ElfEvCurr)
        } else {
            None
        }
    }

    pub fn try_from_u8(value: u8) -> (r: Option<ElfHVersion>)
        ensures
            r == Self::spec_from_u8(value),
    {
        match value {
            0 => Some(ElfHVersion::ElfEvNone),
            1 => Some(ElfHVersion::ElfEvCurr),
            _ => None,
        }
    }
}

/// The decoded 16-byte identification block.
#[derive(Debug, PartialEq, Eq, Copy, Clone)]
pub struct Elf64Ident {
    /// The magic number identifying the file as ELF: 0x7f 'E' 'L' 'F'.
    pub mag: [u8; 4],
    /// The width class, which decides the layout of every header.
    pub class: ElfHClass,
    /// The byte order of every multi-byte field that follows.
    pub data: ElfHData,
    /// The identification version.
    pub version: ElfHVersion,
    /// OS/ABI-specific extensions in use; 0 means none.
    pub os_abi: u8,
    /// Version of the ABI named by `os_abi`; 0 when `os_abi` is 0.
    pub abi_version: u8,
    /// Reserved padding up to the fixed 16-byte total.
    pub pad: [u8; 7],
}

/// File type: only executables are recognized in the current scope.
#[derive(Debug, PartialEq, Eq, Copy, Clone)]
pub enum ElfHType {
    /// No file type.
    NoFileType,
    /// An executable file.
    Executable,
}

impl ElfHType {
    /// The only recognized raw file type value is 2, an executable.
    pub open spec fn spec_from_u16(value: u16) -> Option<ElfHType> {
        if value == 2 {
            Some(ElfHType::Executable)
        } else {
            None
        }
    }

    pub fn try_from_u16(value: u16) -> (r: Option<ElfHType>)
        ensures
            r == Self::spec_from_u16(value),
    {
        match value {
            2 => Some(ElfHType::Executable),
            _ => None,
        }
    }
}

/// True when the buffer starts with the four ELF magic bytes.
pub open spec fn magic_ok(b: Seq<u8>) -> bool {
    b.len() >= 4 && b[0] == 0x7f && b[1] == 0x45 && b[2] == 0x4c && b[3] == 0x46
}

/// True when the buffer begins with a well-formed identification block:
/// the magic number, the 64-bit class, the supported little-endian
/// encoding, and the current version.
pub open spec fn ident_wf(b: Seq<u8>) -> bool {
    &&& b.len() >= 16
    &&& magic_ok(b)
    &&& b[4] == 2
    &&& b[5] == 1
    &&& b[6] == 1
}

/// The error reported for a buffer whose identification block is not
/// well-formed: the first check that fails decides.
pub open spec fn ident_err(b: Seq<u8>) -> ParseError {
    if b.len() < 16 {
        ParseError::TruncatedInput
    } else if !magic_ok(b) {
        ParseError::InvalidMagic
    } else if b[4] != 2 {
        ParseError::UnsupportedClass
    } else if b[5] != 1 {
        ParseError::UnsupportedEncoding
    } else {
        ParseError::UnsupportedVersion
    }
}

/// The identification block `id` is exactly the one decoded from the
/// first 16 bytes of `b`.
pub open spec fn ident_matches(id: Elf64Ident, b: Seq<u8>) -> bool {
    &&& id.mag@ == b.subrange(0, 4)
    &&& id.class is ElfClass64
    &&& id.data is ElfData2Lsb
    &&& id.version is ElfEvCurr
    &&& id.os_abi == b[7]
    &&& id.abi_version == b[8]
    &&& id.pad@ == b.subrange(9, 16)
}

/// True when the four facts every later decode depends on hold of an
/// already-decoded identification block.
pub open spec fn ident_valid(id: Elf64Ident) -> bool {
    &&& id.mag@ == seq![0x7fu8, 0x45u8, 0x4cu8, 0x46u8]
    &&& id.class is ElfClass64
    &&& id.data is ElfData2Lsb
    &&& id.version is ElfEvCurr
}

/// The error `validate` reports for an identification block that broke
/// one of the four facts: the first check that fails decides.
pub open spec fn validate_err(id: Elf64Ident) -> ParseError {
    if id.mag@ != seq![0x7fu8, 0x45u8, 0x4cu8, 0x46u8] {
        ParseError::InvalidMagic
    } else if !(id.class is ElfClass64) {
        ParseError::UnsupportedClass
    } else if !(id.data is ElfData2Lsb) {
        ParseError::UnsupportedEncoding
    } else {
        ParseError::UnsupportedVersion
    }
}

/// Changing any single byte of the magic number of a well-formed
/// identification block makes the parse fail, and fail with the magic
/// error: the identification round trip is sensitive to every magic
/// byte.
pub proof fn lemma_magic_mutation_rejected(b: Seq<u8>, b2: Seq<u8>, j: int)
    requires
        ident_wf(b),
        b2.len() == b.len(),
        0 <= j < 4,
        b2[j] != b[j],
        forall|k: int| 0 <= k < b2.len() && k != j ==> b2[k] == b[k],
    ensures
        !ident_wf(b2),
        ident_err(b2) == ParseError::InvalidMagic,
{
}

/// The decoded 64-byte file header.
#[derive(Debug, PartialEq, Eq, Copy, Clone)]
pub struct Elf64Hdr {
    /// Identifies how to interpret the file.
    pub ident: Elf64Ident,
    /// The type of the file.
    pub e_type: ElfHType,
    /// The architecture the file needs.
    pub machine: u16,
    /// The file header version.
    pub version: u32,
    /// The virtual address control is handed to; 0 when there is none.
    pub entry: Address,
    /// Byte offset of the program header table; 0 when there is none.
    pub ph_off: u64,
    /// Byte offset of the section header table; 0 when there is none.
    pub sh_off: u64,
    /// Processor-specific flags.
    pub flags: u32,
    /// Size in bytes of this header.
    pub eh_size: u16,
    /// Size in bytes of one program header table entry.
    pub ph_ent_size: u16,
    /// Number of entries in the program header table.
    pub ph_num: u16,
    /// Size in bytes of one section header table entry.
    pub sh_ent_size: u16,
    /// Number of entries in the section header table.
    pub sh_num: u16,
    /// Index of the section header naming the section-name string table.
    pub sh_str_ndx: u16,
}

/// True when the buffer begins with a well-formed file header: a
/// well-formed identification block, 64 bytes of header, and a
/// recognized file type.
pub open spec fn hdr_wf(b: Seq<u8>) -> bool {
    &&& ident_wf(b)
    &&& b.len() >= 64
    &&& bytes_value(b.subrange(16, 18), ElfHData::ElfData2Lsb) == 2
}

/// The error reported for a buffer whose file header is not
/// well-formed: the first check that fails decides.
pub open spec fn hdr_err(b: Seq<u8>) -> ParseError {
    if !ident_wf(b) {
        ident_err(b)
    } else if b.len() < 64 {
        ParseError::TruncatedInput
    } else {
        ParseError::UnrecognizedFileType
    }
}

/// The header `h` is exactly the one decoded from the first 64 bytes of
/// `b` in the byte order the identification block declares.
pub open spec fn hdr_matches(h: Elf64Hdr, b: Seq<u8>) -> bool {
    let d = ElfHData::ElfData2Lsb;
    &&& ident_matches(h.ident, b)
    &&& h.e_type is Executable
    &&& h.machine == bytes_value(b.subrange(18, 20), d)
    &&& h.version == bytes_value(b.subrange(20, 24), d)
    &&& h.entry.0 == bytes_value(b.subrange(24, 32), d)
    &&& h.ph_off == bytes_value(b.subrange(32, 40), d)
    &&& h.sh_off == bytes_value(b.subrange(40, 48), d)
    &&& h.flags == bytes_value(b.subrange(48, 52), d)
    &&& h.eh_size == bytes_value(b.subrange(52, 54), d)
    &&& h.ph_ent_size == bytes_value(b.subrange(54, 56), d)
    &&& h.ph_num == bytes_value(b.subrange(56, 58), d)
    &&& h.sh_ent_size == bytes_value(b.subrange(58, 60), d)
    &&& h.sh_num == bytes_value(b.subrange(60, 62), d)
    &&& h.sh_str_ndx == bytes_value(b.subrange(62, 64), d)
}

impl Elf64Hdr {
    /// Checks the four facts every later decode depends on: the magic
    /// number, the 64-bit class, the supported encoding, the current
    /// version. Any mismatch is a fatal parse error.
    pub fn validate(&self) -> (r: Result<&Elf64Hdr, ParseError>)
        ensures
            r matches Ok(h) ==> ident_valid(self.ident) && h == self,
            r matches Err(e) ==> !ident_valid(self.ident) && e == validate_err(self.ident),
    {
        let id = &self.ident;
        if !(id.mag[0] == 0x7f && id.mag[1] == 0x45 && id.mag[2] == 0x4c && id.mag[3] == 0x46) {
            proof {
                assert(id.mag@ != seq![0x7fu8, 0x45u8, 0x4cu8, 0x46u8]);
            }
            return Err(ParseError::InvalidMagic);
        }
        proof {
            assert(id.mag@ =~= seq![0x7fu8, 0x45u8, 0x4cu8, 0x46u8]);
        }
        match id.class {
            ElfHClass::ElfClass64 => {},
            _ => {
                return Err(ParseError::UnsupportedClass);
            },
        }
        match id.data {
            ElfHData::ElfData2Lsb => {},
            _ => {
                return Err(ParseError::UnsupportedEncoding);
            },
        }
        match id.version {
            ElfHVersion::ElfEvCurr => {},
            _ => {
                return Err(ParseError::UnsupportedVersion);
            },
        }
        Ok(self)
    }

    /// Decodes and validates the 16-byte identification block at the
    /// start of the buffer. Success needs the magic number, the 64-bit
    /// class, the little-endian encoding, and the current version.
    pub fn parse_ident(data: &[u8]) -> (r: Result<Elf64Ident, ParseError>)
        ensures
            r matches Ok(id) ==> ident_wf(data@) && ident_matches(id, data@),
            r matches Err(e) ==> !ident_wf(data@) && e == ident_err(data@),
    {
        if data.len() < IDENT_SZ {
            return Err(ParseError::TruncatedInput);
        }
        if !(data[0] == 0x7f && data[1] == 0x45 && data[2] == 0x4c && data[3] == 0x46) {
            return Err(ParseError::InvalidMagic);
        }
        if data[4] != 2 {
            return Err(ParseError::UnsupportedClass);
        }
        if data[5] != 1 {
            return Err(ParseError::UnsupportedEncoding);
        }
        let version = match ElfHVersion::try_from_u8(data[6]) {
            Some(ElfHVersion::ElfEvCurr) => ElfHVersion::ElfEvCurr,
            _ => {
                return Err(ParseError::UnsupportedVersion);
            },
        };
        let id = Elf64Ident {
            mag: [data[0], data[1], data[2], data[3]],
            class: ElfHClass::ElfClass64,
            data: ElfHData::ElfData2Lsb,
            version,
            os_abi: data[7],
            abi_version: data[8],
            pad: [data[9], data[10], data[11], data[12], data[13], data[14], data[15]],
        };
        proof {
            assert(id.mag@ =~= data@.subrange(0, 4));
            assert(id.pad@ =~= data@.subrange(9, 16));
        }
        Ok(id)
    }

    /// Decodes the whole 64-byte file header: the identification block
    /// first, then each fixed-offset field in the byte order the block
    /// declares.
    pub fn parse(data: &[u8]) -> (r: Result<Elf64Hdr, ParseError>)
        ensures
            r matches Ok(h) ==> hdr_wf(data@) && hdr_matches(h, data@),
            r matches Err(e) ==> !hdr_wf(data@) && e == hdr_err(data@),
    {
        let ident = match Self::parse_ident(data) {
            Ok(id) => id,
            Err(e) => {
                return Err(e);
            },
        };
        if data.len() < 64 {
            return Err(ParseError::TruncatedInput);
        }
        let e_type = match ElfHType::try_from_u16(read_u16(data, 16, ident.data)) {
            Some(t) => t,
            None => {
                return Err(ParseError::UnrecognizedFileType);
            },
        };
        Ok(Elf64Hdr {
            ident,
            e_type,
            machine: read_u16(data, 18, ident.data),
            version: read_u32(data, 20, ident.data),
            entry: Address(read_u64(data, 24, ident.data)),
            ph_off: read_u64(data, 32, ident.data),
            sh_off: read_u64(data, 40, ident.data),
            flags: read_u32(data, 48, ident.data),
            eh_size: read_u16(data, 52, ident.data),
            ph_ent_size: read_u16(data, 54, ident.data),
            ph_num: read_u16(data, 56, ident.data),
            sh_ent_size: read_u16(data, 58, ident.data),
            sh_num: read_u16(data, 60, ident.data),
            sh_str_ndx: read_u16(data, 62, ident.data),
        })
    }
}

} // verus!
