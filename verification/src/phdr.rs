//! The program header table: per-segment records and their payloads.

use crate::bytes::{
    bytes_value, lemma_bytes_value_fits_u32, lemma_bytes_value_fits_u64, read_u32, read_u64,
    signed64, to_i64, Address,
};
use crate::ehdr::{Elf64Hdr, ElfHData};
use crate::parser::ParseError;
use vstd::prelude::*;

verus! {

/// Flag bit marking a segment as executable.
pub const PF_EXEC: u32 = 0x1;

/// Flag bit marking a segment as writable.
pub const PF_WRITE: u32 = 0x2;

/// Flag bit marking a segment as readable.
pub const PF_READ: u32 = 0x4;

/// First dynamic tag of the range that uses the even/odd interpretation
/// rules.
pub const DT_ENCODING: i64 = 32;

/// Last dynamic tag of the range reserved for operating systems.
pub const DT_HIOS: i64 = 0x6ffff000;

/// First dynamic tag of the range reserved for processors.
pub const DT_LOPROC: i64 = 0x70000000;

/// Segment type. Values below 8 name a specific type; the ranges above
/// are folded into four coarse reserved buckets.
#[derive(Debug, PartialEq, Eq, Copy, Clone)]
pub enum PType {
    PtNull,
    PtLoad,
    PtDynamic,
    PtInterp,
    PtNote,
    PtShlib,
    PtPhdr,
    PtTls,
    PtLoos,
    PtHios,
    PtLoProc,
    PtHiProc,
}

impl PType {
    /// The segment type a raw value names: values below 8 map directly,
    /// the OS- and processor-reserved ranges map to their buckets, and
    /// the gap between them is recognized as no type at all.
    pub open spec fn spec_from_u32(v: u32) -> Option<PType> {
        if v == 0 {
            Some(PType::PtNull)
        } else if v == 1 {
            Some(PType::PtLoad)
        } else if v == 2 {
            Some(PType::PtDynamic)
        } else if v == 3 {
            Some(PType::PtInterp)
        } else if v == 4 {
            Some(PType::PtNote)
        } else if v == 5 {
            Some(PType::PtShlib)
        } else if v == 6 {
            Some(PType::PtPhdr)
        } else if v == 7 {
            Some(PType::PtTls)
        } else if 0x60000000 <= v && v < 0x6fffffff {
            Some(PType::PtLoos)
        } else if v == 0x6fffffff {
            Some(PType::PtHios)
        } else if 0x70000000 <= v && v < 0x7fffffff {
            Some(PType::PtLoProc)
        } else if v >= 0x7fffffff {
            Some(PType::PtHiProc)
        } else {
            None
        }
    }

    pub fn try_from_u32(v: u32) -> (r: Result<PType, ParseError>)
        ensures
            r matches Ok(t) ==> Self::spec_from_u32(v) == Some(t),
            r matches Err(e) ==> Self::spec_from_u32(v) is None
                && e == ParseError::UnrecognizedSegmentOrSectionType,
    {
        match v {
            0 => Ok(PType::PtNull),
            1 => Ok(PType::PtLoad),
            2 => Ok(PType::PtDynamic),
            3 => Ok(PType::PtInterp),
            4 => Ok(PType::PtNote),
            5 => Ok(PType::PtShlib),
            6 => Ok(PType::PtPhdr),
            7 => Ok(PType::PtTls),
            _ => {
                if 0x60000000 <= v && v < 0x6fffffff {
                    Ok(PType::PtLoos)
                } else if v == 0x6fffffff {
                    Ok(PType::PtHios)
                } else if 0x70000000 <= v && v < 0x7fffffff {
                    Ok(PType::PtLoProc)
                } else if v >= 0x7fffffff {
                    Ok(PType::PtHiProc)
                } else {
                    Err(ParseError::UnrecognizedSegmentOrSectionType)
                }
            },
        }
    }
}

/// The value of one dynamic entry, read as a pointer or as a scalar
/// according to its tag's parity.
#[derive(Debug, PartialEq, Eq, Copy, Clone)]
pub enum DynValue {
    /// A scalar integer.
    DVal(u64),
    /// A pointer.
    DPtr(Address),
}

/// One decoded entry of a dynamic segment: a signed tag and the value
/// it governs.
#[derive(Debug, PartialEq, Eq, Copy, Clone)]
pub struct ELF64Dyn {
    pub d_tag: i64,
    pub d_un: DynValue,
}

/// How a dynamic entry's raw value is read: even tags carry pointers,
/// odd tags carry scalars.
pub open spec fn spec_dyn_value(d_tag: i64, d_un: u64) -> DynValue {
    if d_tag % 2 == 0 {
        DynValue::DPtr(Address(d_un))
    } else {
        DynValue::DVal(d_un)
    }
}

impl ELF64Dyn {
    /// Classifies a raw dynamic value by its tag's parity.
    pub fn d_un(d_tag: i64, d_un: u64) -> (r: DynValue)
        ensures
            r == spec_dyn_value(d_tag, d_un),
    {
        let bits: u64 = if d_tag >= 0 {
            d_tag as u64
        } else {
            u64::MAX - ((-(d_tag + 1)) as u64)
        };
        proof {
            if d_tag < 0 {
                vstd::arithmetic::div_mod::lemma_mod_multiples_vanish(
                    0x8000_0000_0000_0000,
                    d_tag as int,
                    2,
                );
            }
        }
        let is_ptr = bits % 2 == 0;
        if is_ptr {
            DynValue::DPtr(Address(d_un))
        } else {
            // Tags below DT_ENCODING, and those between DT_HIOS and
            // DT_LOPROC, are exempted by the format from the parity
            // rules; the exemption gets no special semantics here, so an
            // odd tag in those ranges keeps its raw value like any other.
            DynValue::DVal(d_un)
        }
    }
}

/// The memory image of a loadable segment: the `filesz` bytes found at
/// `offset` in the file, zero-extended to `memsz` bytes.
pub open spec fn load_image(data: Seq<u8>, offset: int, filesz: int, memsz: int) -> Seq<u8> {
    data.subrange(offset, offset + filesz) + Seq::new((memsz - filesz) as nat, |i: int| 0u8)
}

/// A loadable segment can be materialized: its file extent lies in the
/// buffer, its file size does not exceed its memory size, and its
/// memory size fits an allocation on this machine.
pub open spec fn load_wf(filesz: u64, memsz: u64, offset: u64, len: int) -> bool {
    &&& filesz <= memsz
    &&& memsz <= usize::MAX
    &&& offset + filesz <= len
}

/// The error reported for a loadable segment that cannot be
/// materialized.
pub open spec fn load_err(filesz: u64, memsz: u64, offset: u64, len: int) -> ParseError {
    if filesz > memsz || memsz > usize::MAX {
        ParseError::MalformedSegment
    } else {
        ParseError::TruncatedInput
    }
}

/// A dynamic segment can be decoded: its file extent lies in the buffer
/// and splits into whole 16-byte records.
pub open spec fn dyn_wf(filesz: u64, offset: u64, len: int) -> bool {
    &&& offset + filesz <= len
    &&& filesz % 16 == 0
}

/// One decoded dynamic record at byte offset `base`: a signed 8-byte
/// tag, then an 8-byte value classified by the tag's parity.
pub open spec fn spec_dyn_entry(data: Seq<u8>, base: int, d: ElfHData) -> ELF64Dyn {
    let raw_tag = bytes_value(data.subrange(base, base + 8), d);
    let raw_val = bytes_value(data.subrange(base + 8, base + 16), d);
    let tag = signed64(raw_tag) as i64;
    ELF64Dyn { d_tag: tag, d_un: spec_dyn_value(tag, raw_val as u64) }
}

/// The `n` dynamic records of the extent starting at `off`.
pub open spec fn spec_dyn_entries(data: Seq<u8>, off: int, n: nat, d: ElfHData) -> Seq<ELF64Dyn> {
    Seq::new(n, |i: int| spec_dyn_entry(data, off + 16 * i, d))
}

/// The payload of a segment, keyed by its type.
#[derive(Debug, PartialEq, Eq)]
pub enum PTypeData {
    /// The memory image of a loadable segment.
    PtLoadData(Vec<u8>),
    /// The decoded records of a dynamic segment.
    PtDynamicData(Vec<ELF64Dyn>),
    /// Every other segment type carries no payload.
    Ignorable,
}

impl PTypeData {
    /// Builds the payload of one segment from its type and geometry:
    /// the zero-extended memory image of a loadable segment, the
    /// decoded tag/value records of a dynamic one, nothing for the
    /// rest.
    pub fn parse_section(
        p_type: &PType,
        headers: &Elf64Hdr,
        filesz: u64,
        memsz: u64,
        offset: u64,
        data: &[u8],
    ) -> (r: Result<PTypeData, ParseError>)
        ensures
            *p_type is PtLoad ==> match r {
                Ok(s) => load_wf(filesz, memsz, offset, data@.len() as int) && (s matches
                    PTypeData::PtLoadData(img) && img@ == load_image(
                    data@,
                    offset as int,
                    filesz as int,
                    memsz as int,
                )),
                Err(e) => !load_wf(filesz, memsz, offset, data@.len() as int) && e == load_err(
                    filesz,
                    memsz,
                    offset,
                    data@.len() as int,
                ),
            },
            *p_type is PtDynamic ==> match r {
                Ok(s) => dyn_wf(filesz, offset, data@.len() as int) && (s matches
                    PTypeData::PtDynamicData(v) && v@ == spec_dyn_entries(
                    data@,
                    offset as int,
                    (filesz / 16) as nat,
                    headers.ident.data,
                )),
                Err(e) => !dyn_wf(filesz, offset, data@.len() as int) && e
                    == ParseError::TruncatedInput,
            },
            !(*p_type is PtLoad) && !(*p_type is PtDynamic) ==> r matches Ok(
                PTypeData::Ignorable,
            ),
    {
        let len = data.len();
        match p_type {
            PType::PtLoad => {
                if filesz > memsz {
                    return Err(ParseError::MalformedSegment);
                }
                if memsz > usize::MAX as u64 {
                    return Err(ParseError::MalformedSegment);
                }
                if offset > len as u64 || filesz > len as u64 - offset {
                    return Err(ParseError::TruncatedInput);
                }
                let off = offset as usize;
                let fsz = filesz as usize;
                let msz = memsz as usize;
                // The image occupies the segment's whole memory size;
                // only its first `filesz` bytes come from the file, the
                // rest stay zero.
                let mut image: Vec<u8> = Vec::new();
                let mut i: usize = 0;
                while i < fsz
                    invariant
                        i <= fsz,
                        off + fsz <= len == data@.len(),
                        image@ =~= data@.subrange(off as int, off + i),
                    decreases fsz - i,
                {
                    image.push(data[off + i]);
                    i = i + 1;
                }
                while image.len() < msz
                    invariant
                        fsz <= image@.len() <= msz,
                        off + fsz <= len == data@.len(),
                        image@.subrange(0, fsz as int) =~= data@.subrange(off as int, off + fsz),
                        forall|k: int| fsz <= k < image@.len() ==> image@[k] == 0u8,
                    decreases msz - image@.len(),
                {
                    proof {
                        assert(image@.push(0u8).subrange(0, fsz as int) =~= image@.subrange(
                            0,
                            fsz as int,
                        ));
                    }
                    image.push(0u8);
                }
                proof {
                    let want = load_image(data@, offset as int, filesz as int, memsz as int);
                    assert forall|k: int| 0 <= k < msz implies image@[k] == want[k] by {
                        if k < fsz {
                            assert(image@[k] == image@.subrange(0, fsz as int)[k]);
                        }
                    }
                    assert(image@ =~= want);
                }
                Ok(PTypeData::PtLoadData(image))
            },
            PType::PtDynamic => {
                if offset > len as u64 || filesz > len as u64 - offset {
                    return Err(ParseError::TruncatedInput);
                }
                if filesz % 16 != 0 {
                    return Err(ParseError::TruncatedInput);
                }
                let d = headers.ident.data;
                let off = offset as usize;
                let n = (filesz / 16) as usize;
                let mut entries: Vec<ELF64Dyn> = Vec::new();
                let mut i: usize = 0;
                while i < n
                    invariant
                        i <= n,
                        off + 16 * n <= len == data@.len(),
                        entries@ =~= spec_dyn_entries(data@, off as int, i as nat, d),
                    decreases n - i,
                {
                    let base = off + 16 * i;
                    proof {
                        lemma_bytes_value_fits_u64(data@.subrange(base as int, base + 8), d);
                        lemma_bytes_value_fits_u64(data@.subrange(base + 8, base + 16), d);
                    }
                    let d_tag = to_i64(read_u64(data, base, d));
                    let raw_val = read_u64(data, base + 8, d);
                    entries.push(ELF64Dyn { d_tag, d_un: ELF64Dyn::d_un(d_tag, raw_val) });
                    proof {
                        assert(entries@.last() == spec_dyn_entry(data@, off + 16 * (i as int), d));
                        assert(entries@ =~= spec_dyn_entries(data@, off as int, (i + 1) as nat, d));
                    }
                    i = i + 1;
                }
                Ok(PTypeData::PtDynamicData(entries))
            },
            _ => Ok(PTypeData::Ignorable),
        }
    }
}


/// Byte offset of record `i` of a table that starts at `off` with
/// entries of `entsize` bytes.
pub open spec fn ph_entry_base(off: int, entsize: int, i: int) -> int {
    off + i * entsize
}

/// The raw integer at bytes `[lo, lo + n)` of program header record
/// `i`, read in the byte order `d`.
pub open spec fn ph_raw(
    b: Seq<u8>,
    d: ElfHData,
    off: int,
    entsize: int,
    i: int,
    lo: int,
    n: int,
) -> int {
    bytes_value(
        b.subrange(ph_entry_base(off, entsize, i) + lo, ph_entry_base(off, entsize, i) + lo + n),
        d,
    )
}

/// Record `i`'s fixed fields lie inside the buffer: the declared entry
/// size covers the 56 decoded bytes and the record does not run off the
/// buffer end.
pub open spec fn ph_record_wf(b: Seq<u8>, off: int, entsize: int, i: int) -> bool {
    entsize >= 56 && ph_entry_base(off, entsize, i) + 56 <= b.len()
}

/// Program header record `i` decodes without error: its fields are in
/// the buffer, its type value is recognized, and its payload can be
/// built.
pub open spec fn ph_entry_wf(b: Seq<u8>, d: ElfHData, off: int, entsize: int, i: int) -> bool {
    &&& ph_record_wf(b, off, entsize, i)
    &&& {
        let t = PType::spec_from_u32(ph_raw(b, d, off, entsize, i, 0, 4) as u32);
        let offset = ph_raw(b, d, off, entsize, i, 8, 8) as u64;
        let filesz = ph_raw(b, d, off, entsize, i, 32, 8) as u64;
        let memsz = ph_raw(b, d, off, entsize, i, 40, 8) as u64;
        &&& t is Some
        &&& (t == Some(PType::PtLoad) ==> load_wf(filesz, memsz, offset, b.len() as int))
        &&& (t == Some(PType::PtDynamic) ==> dyn_wf(filesz, offset, b.len() as int))
    }
}

/// The error reported for the first program header record that does not
/// decode.
pub open spec fn ph_entry_err(b: Seq<u8>, d: ElfHData, off: int, entsize: int, i: int) -> ParseError {
    if !ph_record_wf(b, off, entsize, i) {
        ParseError::TruncatedInput
    } else {
        let t = PType::spec_from_u32(ph_raw(b, d, off, entsize, i, 0, 4) as u32);
        let offset = ph_raw(b, d, off, entsize, i, 8, 8) as u64;
        let filesz = ph_raw(b, d, off, entsize, i, 32, 8) as u64;
        let memsz = ph_raw(b, d, off, entsize, i, 40, 8) as u64;
        if t is None {
            ParseError::UnrecognizedSegmentOrSectionType
        } else if t == Some(PType::PtLoad) {
            load_err(filesz, memsz, offset, b.len() as int)
        } else {
            ParseError::TruncatedInput
        }
    }
}

/// One decoded program header with its payload.
#[derive(Debug, PartialEq, Eq)]
pub struct Elf64PHdr {
    /// Segment type.
    pub p_type: PType,
    /// Flags relevant to the segment.
    pub flags: u32,
    /// Offset from the start of the file to the segment's first byte.
    pub offset: u64,
    /// The virtual address where the segment's first byte resides.
    pub vaddr: Address,
    /// The physical address, on systems where that is relevant.
    pub paddr: Address,
    /// The number of bytes in the file image of the segment.
    pub filesz: u64,
    /// The number of bytes in the memory image of the segment.
    pub memsz: u64,
    /// The alignment of the segment in memory and in the file: 0 and 1
    /// mean none is required.
    pub align: u64,
    /// The segment data to be loaded into the process.
    pub section: PTypeData,
}

/// The header `e` is exactly the one decoded from program header record
/// `i`, payload included.
pub open spec fn ph_entry_matches(
    e: Elf64PHdr,
    b: Seq<u8>,
    d: ElfHData,
    off: int,
    entsize: int,
    i: int,
) -> bool {
    &&& Some(e.p_type) == PType::spec_from_u32(ph_raw(b, d, off, entsize, i, 0, 4) as u32)
    &&& e.flags == ph_raw(b, d, off, entsize, i, 4, 4)
    &&& e.offset == ph_raw(b, d, off, entsize, i, 8, 8)
    &&& e.vaddr.0 == ph_raw(b, d, off, entsize, i, 16, 8)
    &&& e.paddr.0 == ph_raw(b, d, off, entsize, i, 24, 8)
    &&& e.filesz == ph_raw(b, d, off, entsize, i, 32, 8)
    &&& e.memsz == ph_raw(b, d, off, entsize, i, 40, 8)
    &&& e.align == ph_raw(b, d, off, entsize, i, 48, 8)
    &&& (e.p_type is PtLoad ==> (e.section matches PTypeData::PtLoadData(img) && img@
        == load_image(b, e.offset as int, e.filesz as int, e.memsz as int)))
    &&& (e.p_type is PtDynamic ==> (e.section matches PTypeData::PtDynamicData(v) && v@
        == spec_dyn_entries(b, e.offset as int, (e.filesz / 16) as nat, d)))
    &&& (!(e.p_type is PtLoad) && !(e.p_type is PtDynamic) ==> e.section is Ignorable)
}

/// The whole program header table of `num` records decodes without
/// error.
pub open spec fn ph_table_wf(b: Seq<u8>, d: ElfHData, off: int, entsize: int, num: int) -> bool {
    forall|i: int| 0 <= i < num ==> #[trigger] ph_entry_wf(b, d, off, entsize, i)
}

impl Elf64PHdr {
    /// Decodes the whole program header table whose geometry the file
    /// header declares, payloads included, in table order. The first
    /// record that does not decode aborts the parse with its error.
    pub fn parse(data: &[u8], headers: &Elf64Hdr) -> (r: Result<Vec<Elf64PHdr>, ParseError>)
        ensures
            ({
                let d = headers.ident.data;
                let off = headers.ph_off as int;
                let entsize = headers.ph_ent_size as int;
                match r {
                    Ok(v) => {
                        &&& ph_table_wf(data@, d, off, entsize, headers.ph_num as int)
                        &&& v@.len() == headers.ph_num
                        &&& forall|i: int|
                            0 <= i < headers.ph_num ==> #[trigger] ph_entry_matches(
                                v@[i],
                                data@,
                                d,
                                off,
                                entsize,
                                i,
                            )
                    },
                    Err(e) => exists|i: int|
                        {
                            &&& 0 <= i < headers.ph_num
                            &&& !(#[trigger] ph_entry_wf(data@, d, off, entsize, i))
                            &&& forall|k: int|
                                0 <= k < i ==> #[trigger] ph_entry_wf(data@, d, off, entsize, k)
                            &&& e == ph_entry_err(data@, d, off, entsize, i)
                        },
                }
            }),
    {
        let ghost goff = headers.ph_off as int;
        let ghost gentsize = headers.ph_ent_size as int;
        let d = headers.ident.data;
        let nth = headers.ph_num as usize;
        let off = headers.ph_off;
        let siz = headers.ph_ent_size as u64;
        let len = data.len();
        let mut out: Vec<Elf64PHdr> = Vec::new();
        let mut i: usize = 0;
        while i < nth
            invariant
                i <= nth,
                out@.len() == i,
                d == headers.ident.data,
                nth == headers.ph_num,
                off == headers.ph_off,
                siz == headers.ph_ent_size,
                goff == headers.ph_off as int,
                gentsize == headers.ph_ent_size as int,
                len == data@.len(),
                forall|k: int|
                    0 <= k < i ==> #[trigger] ph_entry_wf(data@, d, goff, gentsize, k)
                        && ph_entry_matches(out@[k], data@, d, goff, gentsize, k),
            decreases nth - i,
        {
            let ghost gi = i as int;
            if siz < 56 {
                proof {
                    assert(!ph_entry_wf(data@, d, goff, gentsize, gi));
                    assert(ph_entry_err(data@, d, goff, gentsize, gi) == ParseError::TruncatedInput);
                }
                return Err(ParseError::TruncatedInput);
            }
            proof {
                vstd::arithmetic::mul::lemma_mul_upper_bound(i as int, 0xffff, siz as int, 0xffff);
            }
            let isiz: u64 = (i as u64) * siz;
            if off > len as u64 || isiz + 56 > len as u64 - off {
                proof {
                    assert(!ph_record_wf(data@, goff, gentsize, gi));
                    assert(!ph_entry_wf(data@, d, goff, gentsize, gi));
                    assert(ph_entry_err(data@, d, goff, gentsize, gi) == ParseError::TruncatedInput);
                }
                return Err(ParseError::TruncatedInput);
            }
            let base = (off + isiz) as usize;
            proof {
                assert(base == ph_entry_base(goff, gentsize, gi));
                lemma_bytes_value_fits_u32(data@.subrange(base as int, base + 4), d);
                lemma_bytes_value_fits_u32(data@.subrange(base + 4, base + 8), d);
                lemma_bytes_value_fits_u64(data@.subrange(base + 8, base + 16), d);
                lemma_bytes_value_fits_u64(data@.subrange(base + 16, base + 24), d);
                lemma_bytes_value_fits_u64(data@.subrange(base + 24, base + 32), d);
                lemma_bytes_value_fits_u64(data@.subrange(base + 32, base + 40), d);
                lemma_bytes_value_fits_u64(data@.subrange(base + 40, base + 48), d);
                lemma_bytes_value_fits_u64(data@.subrange(base + 48, base + 56), d);
            }
            let raw_type = read_u32(data, base, d);
            proof {
                assert(raw_type == ph_raw(data@, d, goff, gentsize, gi, 0, 4) as u32);
            }
            let p_type = match PType::try_from_u32(raw_type) {
                Ok(t) => t,
                Err(e) => {
                    proof {
                        assert(!ph_entry_wf(data@, d, goff, gentsize, gi));
                        assert(ph_entry_err(data@, d, goff, gentsize, gi)
                            == ParseError::UnrecognizedSegmentOrSectionType);
                    }
                    return Err(e);
                },
            };
            let offset = read_u64(data, base + 8, d);
            let filesz = read_u64(data, base + 32, d);
            let memsz = read_u64(data, base + 40, d);
            let section = match PTypeData::parse_section(
                &p_type,
                headers,
                filesz,
                memsz,
                offset,
                data,
            ) {
                Ok(s) => s,
                Err(e) => {
                    proof {
                        assert(offset == ph_raw(data@, d, goff, gentsize, gi, 8, 8) as u64);
                        assert(filesz == ph_raw(data@, d, goff, gentsize, gi, 32, 8) as u64);
                        assert(memsz == ph_raw(data@, d, goff, gentsize, gi, 40, 8) as u64);
                        assert(!ph_entry_wf(data@, d, goff, gentsize, gi));
                        assert(e == ph_entry_err(data@, d, goff, gentsize, gi));
                    }
                    return Err(e);
                },
            };
            out.push(
                Elf64PHdr {
                    p_type,
                    flags: read_u32(data, base + 4, d),
                    offset,
                    vaddr: Address(read_u64(data, base + 16, d)),
                    paddr: Address(read_u64(data, base + 24, d)),
                    filesz,
                    memsz,
                    align: read_u64(data, base + 48, d),
                    section,
                },
            );
            i = i + 1;
        }
        proof {
            assert forall|j: int| 0 <= j < headers.ph_num implies #[trigger] ph_entry_matches(
                out@[j],
                data@,
                d,
                goff,
                gentsize,
                j,
            ) by {
                assert(ph_entry_wf(data@, d, goff, gentsize, j));
            }
        }
        Ok(out)
    }
}

} // verus!
