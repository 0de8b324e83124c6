//! The parse orchestrator and the error type shared by every stage.

use crate::bytes::{bytes_value, nul_span, str_from_u8};
use crate::ehdr::{hdr_err, hdr_matches, hdr_wf, Elf64Hdr, ElfHData};
use crate::phdr::{ph_entry_err, ph_entry_matches, ph_entry_wf, ph_table_wf, Elf64PHdr};
use crate::shdr::{
    sh_entry_matches, sh_raw, sh_record_wf, sh_table_wf, strtab_err, strtab_wf, table_matches,
    Elf64SHdr, StringTable, StringTableType, SHN_LORESERVE, SHT_STRTAB,
};
use vstd::prelude::*;
use vstd::utf8::{decode_utf8, valid_utf8};

verus! {

/// A terminal failure of the whole parse. Each variant names the check
/// that failed; no partial result is ever produced.
#[derive(Debug, PartialEq, Eq, Copy, Clone)]
pub enum ParseError {
    /// The buffer is shorter than a region the format requires.
    TruncatedInput,
    /// The first four bytes are not the ELF magic number.
    InvalidMagic,
    /// The file is not of the 64-bit class.
    UnsupportedClass,
    /// The data encoding is not the one supported byte order.
    UnsupportedEncoding,
    /// The identification version is not the current one.
    UnsupportedVersion,
    /// The file type field holds no recognized value.
    UnrecognizedFileType,
    /// A segment or section type value falls in no recognized range.
    UnrecognizedSegmentOrSectionType,
    /// A loadable segment declares a file size above its memory size,
    /// or a memory size no buffer on this machine can hold.
    MalformedSegment,
    /// The section count falls in the reserved range whose real count
    /// is stored elsewhere; that extension is deliberately not decoded.
    UnsupportedSectionTableOverflow,
    /// A string table does not both begin and end with a NUL byte.
    MalformedStringTable,
    /// String table bytes are not decodable text.
    InvalidText,
    /// No string table carries the section names.
    MissingSectionNameTable,
}

/// The number of string-table sections among the first `n` section
/// headers.
pub open spec fn strtab_count(shs: Seq<Elf64SHdr>, n: int) -> int
    decreases n,
{
    if n <= 0 {
        0
    } else {
        strtab_count(shs, n - 1) + if shs[n - 1].s_type == SHT_STRTAB {
            1int
        } else {
            0int
        }
    }
}

/// More section headers never hold fewer string-table sections, and
/// each one adds at most one.
pub proof fn lemma_strtab_count_mono(shs: Seq<Elf64SHdr>, m: int, n: int)
    requires
        m <= n,
    ensures
        strtab_count(shs, m) <= strtab_count(shs, n) <= strtab_count(shs, m) + (n - m),
    decreases n - m,
{
    if m < n {
        lemma_strtab_count_mono(shs, m, n - 1);
    }
}

/// Every string-table section of `shs` can be copied out of `b`.
pub open spec fn strtabs_wf(b: Seq<u8>, shs: Seq<Elf64SHdr>) -> bool {
    forall|j: int|
        0 <= j < shs.len() && shs[j].s_type == SHT_STRTAB ==> #[trigger] strtab_wf(b, shs[j])
}

/// The decoded view of one file: the validated file header, the two
/// header tables, and the string tables with the index of the one that
/// names sections.
#[derive(Debug, PartialEq, Eq)]
pub struct ElfParser {
    /// The validated file header.
    pub headers: Elf64Hdr,
    /// The program headers in table order, payloads included.
    pub program_headers: Vec<Elf64PHdr>,
    /// The section headers in table order.
    pub section_headers: Vec<Elf64SHdr>,
    /// Index into `string_tables` of the section-name string table.
    pub header_string_table_idx: usize,
    /// The string tables in section order.
    pub string_tables: Vec<StringTable>,
}

impl ElfParser {
    /// Copies out every string-table section, in section order, tagging
    /// the one at the file header's section-name index as the
    /// section-name table. The first table that cannot be copied aborts
    /// the parse with its error.
    pub fn parse_string_tables(
        data: &[u8],
        headers: &Elf64Hdr,
        section_headers: &Vec<Elf64SHdr>,
    ) -> (r: Result<Vec<StringTable>, ParseError>)
        ensures
            ({
                let shs = section_headers@;
                let b = data@;
                match r {
                    Ok(v) => {
                        &&& strtabs_wf(b, shs)
                        &&& v@.len() == strtab_count(shs, shs.len() as int)
                        &&& forall|j: int|
                            0 <= j < shs.len() && (#[trigger] shs[j]).s_type == SHT_STRTAB
                                ==> table_matches(
                                v@[strtab_count(shs, j)],
                                b,
                                shs[j],
                                j == headers.sh_str_ndx as int,
                            )
                    },
                    Err(e) => exists|j: int|
                        {
                            &&& 0 <= j < shs.len()
                            &&& (#[trigger] shs[j]).s_type == SHT_STRTAB
                            &&& !strtab_wf(b, shs[j])
                            &&& forall|k: int|
                                0 <= k < j && (#[trigger] shs[k]).s_type == SHT_STRTAB
                                    ==> strtab_wf(b, shs[k])
                            &&& e == strtab_err(b, shs[j])
                        },
                }
            }),
    {
        let ghost shs = section_headers@;
        let mut out: Vec<StringTable> = Vec::new();
        let mut idx: usize = 0;
        while idx < section_headers.len()
            invariant
                idx <= shs.len(),
                shs == section_headers@,
                out@.len() == strtab_count(shs, idx as int),
                forall|j: int|
                    0 <= j < idx && (#[trigger] shs[j]).s_type == SHT_STRTAB ==> strtab_wf(
                        data@,
                        shs[j],
                    ) && table_matches(
                        out@[strtab_count(shs, j)],
                        data@,
                        shs[j],
                        j == headers.sh_str_ndx as int,
                    ),
            decreases shs.len() - idx,
        {
            let ghost gi = idx as int;
            let sh = section_headers[idx];
            if sh.s_type == SHT_STRTAB {
                let is_hdr = idx == headers.sh_str_ndx as usize;
                match Elf64SHdr::parse_str_table(data, &sh, is_hdr) {
                    Ok(st) => {
                        out.push(st);
                        proof {
                            assert forall|j: int|
                                0 <= j < gi + 1 && (#[trigger] shs[j]).s_type == SHT_STRTAB
                                    implies strtab_wf(data@, shs[j]) && table_matches(
                                out@[strtab_count(shs, j)],
                                data@,
                                shs[j],
                                j == headers.sh_str_ndx as int,
                            ) by {
                                lemma_strtab_count_mono(shs, 0, j);
                                if j < gi {
                                    assert(strtab_count(shs, j + 1) == strtab_count(shs, j) + 1);
                                    lemma_strtab_count_mono(shs, j + 1, gi);
                                } else {
                                    assert(strtab_count(shs, gi) == out@.len() - 1);
                                }
                            }
                        }
                    },
                    Err(e) => {
                        return Err(e);
                    },
                }
            }
            idx = idx + 1;
        }
        Ok(out)
    }

    /// Resolves a name offset against a string table: the text between
    /// the offset and the next NUL byte (or the table's end).
    pub fn get_sh_name(str_table: &StringTable, idx: u32) -> (r: Result<String, ParseError>)
        requires
            idx as int <= str_table.table@.len(),
        ensures
            ({
                let span = nul_span(str_table.table@.skip(idx as int));
                match r {
                    Ok(t) => valid_utf8(span) && t@ == decode_utf8(span),
                    Err(e) => !valid_utf8(span) && e == ParseError::InvalidText,
                }
            }),
    {
        let rest = vstd::slice::slice_subrange(
            str_table.table.as_slice(),
            idx as usize,
            str_table.table.len(),
        );
        proof {
            assert(rest@ =~= str_table.table@.skip(idx as int));
        }
        str_from_u8(rest)
    }
}


/// The program header table offset the file header declares.
pub open spec fn file_ph_off(b: Seq<u8>) -> int {
    bytes_value(b.subrange(32, 40), ElfHData::ElfData2Lsb)
}

/// The program header entry size the file header declares.
pub open spec fn file_ph_entsize(b: Seq<u8>) -> int {
    bytes_value(b.subrange(54, 56), ElfHData::ElfData2Lsb)
}

/// The program header count the file header declares.
pub open spec fn file_ph_num(b: Seq<u8>) -> int {
    bytes_value(b.subrange(56, 58), ElfHData::ElfData2Lsb)
}

/// The section header table offset the file header declares.
pub open spec fn file_sh_off(b: Seq<u8>) -> int {
    bytes_value(b.subrange(40, 48), ElfHData::ElfData2Lsb)
}

/// The section header entry size the file header declares.
pub open spec fn file_sh_entsize(b: Seq<u8>) -> int {
    bytes_value(b.subrange(58, 60), ElfHData::ElfData2Lsb)
}

/// The section header count the file header declares.
pub open spec fn file_sh_num(b: Seq<u8>) -> int {
    bytes_value(b.subrange(60, 62), ElfHData::ElfData2Lsb)
}

/// The section-name table index the file header declares.
pub open spec fn file_sh_str_ndx(b: Seq<u8>) -> int {
    bytes_value(b.subrange(62, 64), ElfHData::ElfData2Lsb)
}

/// Section `j` is marked as a string table by its raw type field.
pub open spec fn file_sec_is_strtab(b: Seq<u8>, j: int) -> bool {
    sh_raw(b, ElfHData::ElfData2Lsb, file_sh_off(b), file_sh_entsize(b), j, 4, 4) == SHT_STRTAB
}

/// The string table of section `j` can be copied out: its extent lies
/// in the buffer and is framed by NUL bytes.
pub open spec fn file_strtab_wf(b: Seq<u8>, j: int) -> bool {
    let d = ElfHData::ElfData2Lsb;
    let toff = sh_raw(b, d, file_sh_off(b), file_sh_entsize(b), j, 24, 8);
    let tsiz = sh_raw(b, d, file_sh_off(b), file_sh_entsize(b), j, 32, 8);
    &&& toff + tsiz <= b.len()
    &&& tsiz > 0
    &&& b[toff] == 0
    &&& b[toff + tsiz - 1] == 0
}

/// The error reported for the string table of section `j` when it
/// cannot be copied out.
pub open spec fn file_strtab_err(b: Seq<u8>, j: int) -> ParseError {
    let d = ElfHData::ElfData2Lsb;
    let toff = sh_raw(b, d, file_sh_off(b), file_sh_entsize(b), j, 24, 8);
    let tsiz = sh_raw(b, d, file_sh_off(b), file_sh_entsize(b), j, 32, 8);
    if !(toff + tsiz <= b.len()) {
        ParseError::TruncatedInput
    } else {
        ParseError::MalformedStringTable
    }
}

/// Every section marked as a string table can be copied out.
pub open spec fn file_strtabs_wf(b: Seq<u8>, n: int) -> bool {
    forall|j: int| 0 <= j < n && file_sec_is_strtab(b, j) ==> #[trigger] file_strtab_wf(b, j)
}

/// The section the file header's section-name index points at exists
/// and is a string table, so one table carries the section names.
pub open spec fn file_shstr_present(b: Seq<u8>) -> bool {
    file_sh_str_ndx(b) < file_sh_num(b) && file_sec_is_strtab(b, file_sh_str_ndx(b))
}

/// The whole parse succeeds on `b`: a well-formed file header, every
/// program header record with its payload, a section count below the
/// reserved range, every section header record, every string table,
/// and a section-name table to resolve names against.
pub open spec fn spec_parse_ok(b: Seq<u8>) -> bool {
    let d = ElfHData::ElfData2Lsb;
    &&& hdr_wf(b)
    &&& ph_table_wf(b, d, file_ph_off(b), file_ph_entsize(b), file_ph_num(b))
    &&& file_sh_num(b) < SHN_LORESERVE
    &&& sh_table_wf(b, file_sh_off(b), file_sh_entsize(b), file_sh_num(b))
    &&& file_strtabs_wf(b, file_sh_num(b))
    &&& file_shstr_present(b)
}

/// The first program header record that does not decode, assuming one
/// of the first `n` does not.
pub open spec fn first_bad_ph(b: Seq<u8>, d: ElfHData, off: int, entsize: int, n: int) -> int
    decreases n,
{
    if n <= 0 {
        0
    } else if !ph_table_wf(b, d, off, entsize, n - 1) {
        first_bad_ph(b, d, off, entsize, n - 1)
    } else {
        n - 1
    }
}

/// When the program header table does not decode, `first_bad_ph` names
/// the first record that fails.
pub proof fn lemma_first_bad_ph(b: Seq<u8>, d: ElfHData, off: int, entsize: int, n: int)
    requires
        !ph_table_wf(b, d, off, entsize, n),
        n >= 0,
    ensures
        ({
            let i = first_bad_ph(b, d, off, entsize, n);
            &&& 0 <= i < n
            &&& !ph_entry_wf(b, d, off, entsize, i)
            &&& forall|k: int| 0 <= k < i ==> #[trigger] ph_entry_wf(b, d, off, entsize, k)
        }),
    decreases n,
{
    if n > 0 {
        if !ph_table_wf(b, d, off, entsize, n - 1) {
            lemma_first_bad_ph(b, d, off, entsize, n - 1);
        } else {
            assert(!ph_entry_wf(b, d, off, entsize, n - 1)) by {
                if ph_entry_wf(b, d, off, entsize, n - 1) {
                    assert forall|i: int| 0 <= i < n implies #[trigger] ph_entry_wf(
                        b,
                        d,
                        off,
                        entsize,
                        i,
                    ) by {}
                }
            }
        }
    }
}

/// The first string-table section that cannot be copied out, assuming
/// one of the first `n` cannot.
pub open spec fn first_bad_strtab(b: Seq<u8>, n: int) -> int
    decreases n,
{
    if n <= 0 {
        0
    } else if !file_strtabs_wf(b, n - 1) {
        first_bad_strtab(b, n - 1)
    } else {
        n - 1
    }
}

/// When some string table cannot be copied out, `first_bad_strtab`
/// names the first section whose table fails.
pub proof fn lemma_first_bad_strtab(b: Seq<u8>, n: int)
    requires
        !file_strtabs_wf(b, n),
        n >= 0,
    ensures
        ({
            let j = first_bad_strtab(b, n);
            &&& 0 <= j < n
            &&& file_sec_is_strtab(b, j)
            &&& !file_strtab_wf(b, j)
            &&& forall|k: int|
                0 <= k < j && file_sec_is_strtab(b, k) ==> #[trigger] file_strtab_wf(b, k)
        }),
    decreases n,
{
    if n > 0 {
        if !file_strtabs_wf(b, n - 1) {
            lemma_first_bad_strtab(b, n - 1);
        } else {
            assert(file_sec_is_strtab(b, n - 1) && !file_strtab_wf(b, n - 1)) by {
                if !file_sec_is_strtab(b, n - 1) || file_strtab_wf(b, n - 1) {
                    assert forall|j: int|
                        0 <= j < n && file_sec_is_strtab(b, j) implies #[trigger] file_strtab_wf(
                        b,
                        j,
                    ) by {}
                }
            }
        }
    }
}

/// The error the whole parse reports: that of the first stage, and
/// within a stage the first record, that fails.
pub open spec fn spec_parse_err(b: Seq<u8>) -> ParseError {
    let d = ElfHData::ElfData2Lsb;
    if !hdr_wf(b) {
        hdr_err(b)
    } else if !ph_table_wf(b, d, file_ph_off(b), file_ph_entsize(b), file_ph_num(b)) {
        ph_entry_err(
            b,
            d,
            file_ph_off(b),
            file_ph_entsize(b),
            first_bad_ph(b, d, file_ph_off(b), file_ph_entsize(b), file_ph_num(b)),
        )
    } else if file_sh_num(b) >= SHN_LORESERVE {
        ParseError::UnsupportedSectionTableOverflow
    } else if !sh_table_wf(b, file_sh_off(b), file_sh_entsize(b), file_sh_num(b)) {
        ParseError::TruncatedInput
    } else if !file_strtabs_wf(b, file_sh_num(b)) {
        file_strtab_err(b, first_bad_strtab(b, file_sh_num(b)))
    } else {
        ParseError::MissingSectionNameTable
    }
}

/// A surjection fact: every position of the string table list comes
/// from some string-table section.
pub proof fn lemma_strtab_count_surjective(shs: Seq<Elf64SHdr>, n: int, k: int)
    requires
        0 <= n <= shs.len(),
        0 <= k < strtab_count(shs, n),
    ensures
        exists|j: int|
            {
                &&& 0 <= j < n
                &&& (#[trigger] shs[j]).s_type == SHT_STRTAB
                &&& strtab_count(shs, j) == k
            },
    decreases n,
{
    if n > 0 {
        if shs[n - 1].s_type == SHT_STRTAB && k == strtab_count(shs, n - 1) {
            assert(0 <= n - 1 < n && shs[n - 1].s_type == SHT_STRTAB && strtab_count(shs, n - 1)
                == k);
        } else {
            lemma_strtab_count_surjective(shs, n - 1, k);
        }
    }
}

impl ElfParser {
    /// Decodes a whole file: the file header, both header tables with
    /// their payloads, and the string tables, then locates the
    /// section-name table. Any stage's failure aborts the parse with
    /// that stage's error; there is no partial result.
    pub fn parse(data: &[u8]) -> (r: Result<ElfParser, ParseError>)
        ensures
            r is Ok <==> spec_parse_ok(data@),
            r matches Err(e) ==> e == spec_parse_err(data@),
            r matches Ok(p) ==> {
                let b = data@;
                let d = p.headers.ident.data;
                let shs = p.section_headers@;
                &&& hdr_matches(p.headers, b)
                &&& p.program_headers@.len() == p.headers.ph_num
                &&& forall|i: int|
                    0 <= i < p.headers.ph_num ==> #[trigger] ph_entry_matches(
                        p.program_headers@[i],
                        b,
                        d,
                        p.headers.ph_off as int,
                        p.headers.ph_ent_size as int,
                        i,
                    )
                &&& p.section_headers@.len() == p.headers.sh_num
                &&& forall|i: int|
                    0 <= i < p.headers.sh_num ==> #[trigger] sh_entry_matches(
                        p.section_headers@[i],
                        b,
                        d,
                        p.headers.sh_off as int,
                        p.headers.sh_ent_size as int,
                        i,
                    )
                &&& p.string_tables@.len() == strtab_count(shs, shs.len() as int)
                &&& forall|j: int|
                    0 <= j < shs.len() && (#[trigger] shs[j]).s_type == SHT_STRTAB
                        ==> table_matches(
                        p.string_tables@[strtab_count(shs, j)],
                        b,
                        shs[j],
                        j == p.headers.sh_str_ndx as int,
                    )
                &&& p.header_string_table_idx < p.string_tables@.len()
                &&& p.string_tables@[p.header_string_table_idx as int].sh_type is ShStrTab
                &&& forall|m: int|
                    0 <= m < p.header_string_table_idx ==> !((#[trigger] p.string_tables@[m]).sh_type
                        is ShStrTab)
            },
    {
        let ghost b = data@;
        let headers = match Elf64Hdr::parse(data) {
            Ok(h) => h,
            Err(e) => {
                return Err(e);
            },
        };
        proof {
            assert(headers.ident.data == ElfHData::ElfData2Lsb);
            assert(headers.ph_off as int == file_ph_off(b));
            assert(headers.ph_ent_size as int == file_ph_entsize(b));
            assert(headers.ph_num as int == file_ph_num(b));
            assert(headers.sh_off as int == file_sh_off(b));
            assert(headers.sh_ent_size as int == file_sh_entsize(b));
            assert(headers.sh_num as int == file_sh_num(b));
            assert(headers.sh_str_ndx as int == file_sh_str_ndx(b));
        }
        let program_headers = match Elf64PHdr::parse(data, &headers) {
            Ok(v) => v,
            Err(e) => {
                proof {
                    let d = ElfHData::ElfData2Lsb;
                    let i = choose|i: int|
                        {
                            &&& 0 <= i < headers.ph_num
                            &&& !(#[trigger] ph_entry_wf(
                                b,
                                d,
                                headers.ph_off as int,
                                headers.ph_ent_size as int,
                                i,
                            ))
                            &&& forall|k: int|
                                0 <= k < i ==> #[trigger] ph_entry_wf(
                                    b,
                                    d,
                                    headers.ph_off as int,
                                    headers.ph_ent_size as int,
                                    k,
                                )
                            &&& e == ph_entry_err(
                                b,
                                d,
                                headers.ph_off as int,
                                headers.ph_ent_size as int,
                                i,
                            )
                        };
                    assert(!ph_table_wf(b, d, file_ph_off(b), file_ph_entsize(b), file_ph_num(b)));
                    lemma_first_bad_ph(b, d, file_ph_off(b), file_ph_entsize(b), file_ph_num(b));
                    let fb = first_bad_ph(b, d, file_ph_off(b), file_ph_entsize(b), file_ph_num(b));
                    assert(fb == i) by {
                        if fb < i {
                            assert(ph_entry_wf(b, d, file_ph_off(b), file_ph_entsize(b), fb));
                        }
                        if i < fb {
                            assert(ph_entry_wf(b, d, file_ph_off(b), file_ph_entsize(b), i));
                        }
                    }
                }
                return Err(e);
            },
        };
        let section_headers = match Elf64SHdr::parse(data, &headers) {
            Ok(v) => v,
            Err(e) => {
                proof {
                    if headers.sh_num < SHN_LORESERVE {
                        assert(!sh_table_wf(b, file_sh_off(b), file_sh_entsize(b), file_sh_num(b)));
                    }
                }
                return Err(e);
            },
        };
        let string_tables = match Self::parse_string_tables(data, &headers, &section_headers) {
            Ok(v) => v,
            Err(e) => {
                proof {
                    let shs = section_headers@;
                    let d = ElfHData::ElfData2Lsb;
                    let j = choose|j: int|
                        {
                            &&& 0 <= j < shs.len()
                            &&& (#[trigger] shs[j]).s_type == SHT_STRTAB
                            &&& !strtab_wf(b, shs[j])
                            &&& forall|k: int|
                                0 <= k < j && (#[trigger] shs[k]).s_type == SHT_STRTAB
                                    ==> strtab_wf(b, shs[k])
                            &&& e == strtab_err(b, shs[j])
                        };
                    assert(sh_entry_matches(
                        shs[j],
                        b,
                        d,
                        headers.sh_off as int,
                        headers.sh_ent_size as int,
                        j,
                    ));
                    assert(file_sec_is_strtab(b, j));
                    assert(!file_strtab_wf(b, j));
                    assert(strtab_err(b, shs[j]) == file_strtab_err(b, j));
                    assert(!file_strtabs_wf(b, file_sh_num(b)));
                    lemma_first_bad_strtab(b, file_sh_num(b));
                    let fb = first_bad_strtab(b, file_sh_num(b));
                    assert(fb == j) by {
                        if fb < j {
                            assert(sh_entry_matches(
                                shs[fb],
                                b,
                                d,
                                headers.sh_off as int,
                                headers.sh_ent_size as int,
                                fb,
                            ));
                            assert(shs[fb].s_type == SHT_STRTAB);
                            assert(strtab_wf(b, shs[fb]));
                            assert(file_strtab_wf(b, fb));
                        }
                        if j < fb {
                            assert(file_strtab_wf(b, j));
                        }
                    }
                }
                return Err(e);
            },
        };
        let ghost shs = section_headers@;
        proof {
            assert forall|j: int|
                0 <= j < file_sh_num(b) && file_sec_is_strtab(b, j) implies #[trigger] file_strtab_wf(
                b,
                j,
            ) by {
                assert(sh_entry_matches(
                    shs[j],
                    b,
                    ElfHData::ElfData2Lsb,
                    headers.sh_off as int,
                    headers.sh_ent_size as int,
                    j,
                ));
                assert(shs[j].s_type == SHT_STRTAB);
                assert(strtab_wf(b, shs[j]));
            }
            assert(file_strtabs_wf(b, file_sh_num(b)));
        }
        let n = string_tables.len();
        let mut k: usize = 0;
        #[verifier::loop_isolation(false)]
        while k < n
            invariant
                k <= n,
                forall|m: int|
                    0 <= m < k ==> !((#[trigger] string_tables@[m]).sh_type is ShStrTab),
            decreases n - k,
        {
            let found = match string_tables[k].sh_type {
                StringTableType::ShStrTab => true,
                _ => false,
            };
            if found {
                proof {
                    lemma_strtab_count_surjective(shs, shs.len() as int, k as int);
                    let j = choose|j: int|
                        {
                            &&& 0 <= j < shs.len()
                            &&& (#[trigger] shs[j]).s_type == SHT_STRTAB
                            &&& strtab_count(shs, j) == k as int
                        };
                    assert(table_matches(
                        string_tables@[k as int],
                        b,
                        shs[j],
                        j == headers.sh_str_ndx as int,
                    ));
                    assert(j == headers.sh_str_ndx as int);
                    assert(sh_entry_matches(
                        shs[j],
                        b,
                        ElfHData::ElfData2Lsb,
                        headers.sh_off as int,
                        headers.sh_ent_size as int,
                        j,
                    ));
                    assert(file_sec_is_strtab(b, j));
                    assert(file_shstr_present(b));
                }
                return Ok(
                    ElfParser {
                        headers,
                        program_headers,
                        section_headers,
                        header_string_table_idx: k,
                        string_tables,
                    },
                );
            }
            k = k + 1;
        }
        proof {
            if file_shstr_present(b) {
                let ndx = headers.sh_str_ndx as int;
                assert(sh_entry_matches(
                    shs[ndx],
                    b,
                    ElfHData::ElfData2Lsb,
                    headers.sh_off as int,
                    headers.sh_ent_size as int,
                    ndx,
                ));
                assert(shs[ndx].s_type == SHT_STRTAB);
                lemma_strtab_count_mono(shs, 0, ndx);
                lemma_strtab_count_mono(shs, ndx + 1, shs.len() as int);
                assert(strtab_count(shs, ndx + 1) == strtab_count(shs, ndx) + 1);
                assert(table_matches(
                    string_tables@[strtab_count(shs, ndx)],
                    b,
                    shs[ndx],
                    true,
                ));
                assert(string_tables@[strtab_count(shs, ndx)].sh_type is ShStrTab);
                assert(false);
            }
        }
        Err(ParseError::MissingSectionNameTable)
    }
}

} // verus!
