//! Endianness-aware decoding of fixed-width integers from byte buffers.

use crate::ehdr::ElfHData;
use crate::parser::ParseError;
use vstd::array::array_as_slice;
use vstd::prelude::*;
use vstd::utf8::{decode_utf8, valid_utf8};

verus! {

/// An opaque 64-bit domain value: a virtual or file address.
#[derive(Debug, Default, PartialEq, Eq, Copy, Clone)]
pub struct Address(pub u64);

/// The value of a byte sequence read as a little-endian integer:
/// the first byte is the least significant.
pub open spec fn le_bytes(s: Seq<u8>) -> int
    decreases s.len(),
{
    if s.len() == 0 {
        0
    } else {
        s[0] + 256 * le_bytes(s.drop_first())
    }
}

/// The value of a byte sequence read as a big-endian integer:
/// the first byte is the most significant.
pub open spec fn be_bytes(s: Seq<u8>) -> int
    decreases s.len(),
{
    if s.len() == 0 {
        0
    } else {
        256 * be_bytes(s.drop_last()) + s.last()
    }
}

/// 256 raised to the power `n`: the number of distinct values of `n` bytes.
pub open spec fn pow256(n: nat) -> int
    decreases n,
{
    if n == 0 {
        1
    } else {
        256 * pow256((n - 1) as nat)
    }
}

pub proof fn lemma_pow256_pos(n: nat)
    ensures
        pow256(n) >= 1,
    decreases n,
{
    if n > 0 {
        lemma_pow256_pos((n - 1) as nat);
    }
}

pub proof fn lemma_pow256_increases(a: nat, b: nat)
    requires
        a <= b,
    ensures
        pow256(a) <= pow256(b),
    decreases b,
{
    if a < b {
        lemma_pow256_increases(a, (b - 1) as nat);
        lemma_pow256_pos((b - 1) as nat);
    }
}

/// A sequence of `n` bytes denotes a value in `[0, 256^n)`,
/// whichever way it is read.
pub proof fn lemma_le_bytes_bound(s: Seq<u8>)
    ensures
        0 <= le_bytes(s) < pow256(s.len()),
    decreases s.len(),
{
    if s.len() > 0 {
        lemma_le_bytes_bound(s.drop_first());
    }
}

pub proof fn lemma_be_bytes_bound(s: Seq<u8>)
    ensures
        0 <= be_bytes(s) < pow256(s.len()),
    decreases s.len(),
{
    if s.len() > 0 {
        lemma_be_bytes_bound(s.drop_last());
    }
}

/// Reading big-endian is reading the reversed bytes little-endian.
pub proof fn lemma_be_is_reversed_le(s: Seq<u8>)
    ensures
        be_bytes(s) == le_bytes(s.reverse()),
    decreases s.len(),
{
    if s.len() > 0 {
        lemma_be_is_reversed_le(s.drop_last());
        assert(s.reverse()[0] == s.last());
        assert(s.reverse().drop_first() =~= s.drop_last().reverse());
    }
}

/// Two byte sequences of one length with the same little-endian value
/// are the same sequence.
pub proof fn lemma_le_bytes_injective(a: Seq<u8>, b: Seq<u8>)
    requires
        a.len() == b.len(),
        le_bytes(a) == le_bytes(b),
    ensures
        a =~= b,
    decreases a.len(),
{
    if a.len() > 0 {
        let ra = a.drop_first();
        let rb = b.drop_first();
        lemma_le_bytes_bound(ra);
        lemma_le_bytes_bound(rb);
        assert(a[0] == b[0] && le_bytes(ra) == le_bytes(rb)) by {
            vstd::arithmetic::div_mod::lemma_fundamental_div_mod_converse(
                le_bytes(a),
                256,
                le_bytes(ra),
                a[0] as int,
            );
            vstd::arithmetic::div_mod::lemma_fundamental_div_mod_converse(
                le_bytes(b),
                256,
                le_bytes(rb),
                b[0] as int,
            );
        }
        lemma_le_bytes_injective(ra, rb);
        assert(forall|i: int| 0 < i < a.len() ==> a[i] == ra[i - 1] && b[i] == rb[i - 1]);
    }
}

/// The two byte orders read the same value from a sequence exactly when
/// the sequence is its own reversal.
pub proof fn lemma_endian_agreement(s: Seq<u8>)
    ensures
        le_bytes(s) == be_bytes(s) <==> s =~= s.reverse(),
{
    lemma_be_is_reversed_le(s);
    if le_bytes(s) == be_bytes(s) {
        lemma_le_bytes_injective(s, s.reverse());
    }
}

/// Reads the `n` bytes at `data[off..off + n]` as a little-endian integer.
pub fn read_le(data: &[u8], off: usize, n: usize) -> (r: u64)
    requires
        n <= 8,
        off + n <= data@.len(),
    ensures
        r == le_bytes(data@.subrange(off as int, off + n)),
{
    let len: usize = data.len();
    let mut r: u64 = 0;
    let mut i: usize = n;
    while i > 0
        invariant
            i <= n <= 8,
            off + n <= len == data@.len(),
            r == le_bytes(data@.subrange(off + i, off + n)),
        decreases i,
    {
        proof {
            reveal_with_fuel(pow256, 9);
            lemma_le_bytes_bound(data@.subrange(off + i, off + n));
            lemma_pow256_increases((n - i) as nat, 7);
            assert(data@.subrange(off + i - 1, off + n).drop_first() =~= data@.subrange(
                off + i,
                off + n,
            ));
        }
        i = i - 1;
        r = r * 256 + (data[off + i] as u64);
    }
    proof {
        assert(data@.subrange(off as int, off + n) == data@.subrange(off + i, off + n));
    }
    r
}

/// Reads the `n` bytes at `data[off..off + n]` as a big-endian integer.
pub fn read_be(data: &[u8], off: usize, n: usize) -> (r: u64)
    requires
        n <= 8,
        off + n <= data@.len(),
    ensures
        r == be_bytes(data@.subrange(off as int, off + n)),
{
    proof {
        assert(data@.subrange(off as int, off as int) =~= Seq::<u8>::empty());
    }
    let len: usize = data.len();
    let mut r: u64 = 0;
    let mut i: usize = 0;
    while i < n
        invariant
            i <= n <= 8,
            off + n <= len == data@.len(),
            r == be_bytes(data@.subrange(off as int, off + i)),
        decreases n - i,
    {
        proof {
            reveal_with_fuel(pow256, 9);
            lemma_be_bytes_bound(data@.subrange(off as int, off + i));
            lemma_pow256_increases(i as nat, 7);
            assert(data@.subrange(off as int, off + i + 1).drop_last() =~= data@.subrange(
                off as int,
                off + i,
            ));
        }
        r = r * 256 + (data[off + i] as u64);
        i = i + 1;
    }
    r
}

/// The integer denoted by a byte sequence in the byte order `d`.
pub open spec fn bytes_value(s: Seq<u8>, d: ElfHData) -> int {
    match d {
        ElfHData::ElfData2Lsb => le_bytes(s),
        ElfHData::ElfData2Msb => be_bytes(s),
    }
}

/// Any sequence of at most eight bytes denotes a 64-bit value.
pub proof fn lemma_bytes_value_fits_u64(s: Seq<u8>, d: ElfHData)
    requires
        s.len() <= 8,
    ensures
        0 <= bytes_value(s, d) <= u64::MAX,
{
    reveal_with_fuel(pow256, 9);
    lemma_le_bytes_bound(s);
    lemma_be_bytes_bound(s);
    lemma_pow256_increases(s.len(), 8);
}

/// Any sequence of at most four bytes denotes a 32-bit value.
pub proof fn lemma_bytes_value_fits_u32(s: Seq<u8>, d: ElfHData)
    requires
        s.len() <= 4,
    ensures
        0 <= bytes_value(s, d) <= u32::MAX,
{
    reveal_with_fuel(pow256, 5);
    lemma_le_bytes_bound(s);
    lemma_be_bytes_bound(s);
    lemma_pow256_increases(s.len(), 4);
}

/// The signed value a 64-bit pattern denotes in two's complement.
pub open spec fn signed64(v: int) -> int {
    if v < 0x8000_0000_0000_0000 {
        v
    } else {
        v - 0x1_0000_0000_0000_0000
    }
}

/// Reinterprets a 64-bit pattern as a signed integer.
pub fn to_i64(v: u64) -> (r: i64)
    ensures
        r == signed64(v as int),
{
    if v < 0x8000_0000_0000_0000 {
        v as i64
    } else {
        ((v - 0x8000_0000_0000_0000) as i64) - 0x4000_0000_0000_0000 - 0x4000_0000_0000_0000
    }
}

/// Reads the two bytes at `off` in the byte order `d`.
pub fn read_u16(data: &[u8], off: usize, d: ElfHData) -> (r: u16)
    requires
        off + 2 <= data@.len(),
    ensures
        r == bytes_value(data@.subrange(off as int, off + 2), d),
{
    proof {
        reveal_with_fuel(pow256, 3);
        lemma_le_bytes_bound(data@.subrange(off as int, off + 2));
        lemma_be_bytes_bound(data@.subrange(off as int, off + 2));
    }
    match d {
        ElfHData::ElfData2Lsb => read_le(data, off, 2) as u16,
        ElfHData::ElfData2Msb => read_be(data, off, 2) as u16,
    }
}

/// Reads the four bytes at `off` in the byte order `d`.
pub fn read_u32(data: &[u8], off: usize, d: ElfHData) -> (r: u32)
    requires
        off + 4 <= data@.len(),
    ensures
        r == bytes_value(data@.subrange(off as int, off + 4), d),
{
    proof {
        reveal_with_fuel(pow256, 5);
        lemma_le_bytes_bound(data@.subrange(off as int, off + 4));
        lemma_be_bytes_bound(data@.subrange(off as int, off + 4));
    }
    match d {
        ElfHData::ElfData2Lsb => read_le(data, off, 4) as u32,
        ElfHData::ElfData2Msb => read_be(data, off, 4) as u32,
    }
}

/// Reads the eight bytes at `off` in the byte order `d`.
pub fn read_u64(data: &[u8], off: usize, d: ElfHData) -> (r: u64)
    requires
        off + 8 <= data@.len(),
    ensures
        r == bytes_value(data@.subrange(off as int, off + 8), d),
{
    match d {
        ElfHData::ElfData2Lsb => read_le(data, off, 8),
        ElfHData::ElfData2Msb => read_be(data, off, 8),
    }
}

/// A fixed-width value that can be decoded from its `N` raw bytes in
/// either byte order.
pub trait GenericBytes<const N: usize>: Sized {
    /// The integer this value denotes.
    spec fn gb_int(&self) -> int;

    fn from_le_bytes(bytes: [u8; N]) -> (r: Self)
        ensures
            r.gb_int() == le_bytes(bytes@),
    ;

    fn from_be_bytes(bytes: [u8; N]) -> (r: Self)
        ensures
            r.gb_int() == be_bytes(bytes@),
    ;
}

impl GenericBytes<2> for u16 {
    open spec fn gb_int(&self) -> int {
        *self as int
    }

    fn from_le_bytes(bytes: [u8; 2]) -> (r: Self) {
        proof {
            reveal_with_fuel(pow256, 3);
            lemma_le_bytes_bound(bytes@);
            assert(array_as_slice(&bytes)@.subrange(0, 2) =~= bytes@);
        }
        read_le(array_as_slice(&bytes), 0, 2) as u16
    }

    fn from_be_bytes(bytes: [u8; 2]) -> (r: Self) {
        proof {
            reveal_with_fuel(pow256, 3);
            lemma_be_bytes_bound(bytes@);
            assert(array_as_slice(&bytes)@.subrange(0, 2) =~= bytes@);
        }
        read_be(array_as_slice(&bytes), 0, 2) as u16
    }
}

impl GenericBytes<4> for u32 {
    open spec fn gb_int(&self) -> int {
        *self as int
    }

    fn from_le_bytes(bytes: [u8; 4]) -> (r: Self) {
        proof {
            reveal_with_fuel(pow256, 5);
            lemma_le_bytes_bound(bytes@);
            assert(array_as_slice(&bytes)@.subrange(0, 4) =~= bytes@);
        }
        read_le(array_as_slice(&bytes), 0, 4) as u32
    }

    fn from_be_bytes(bytes: [u8; 4]) -> (r: Self) {
        proof {
            reveal_with_fuel(pow256, 5);
            lemma_be_bytes_bound(bytes@);
            assert(array_as_slice(&bytes)@.subrange(0, 4) =~= bytes@);
        }
        read_be(array_as_slice(&bytes), 0, 4) as u32
    }
}

impl GenericBytes<8> for u64 {
    open spec fn gb_int(&self) -> int {
        *self as int
    }

    fn from_le_bytes(bytes: [u8; 8]) -> (r: Self) {
        proof {
            assert(array_as_slice(&bytes)@.subrange(0, 8) =~= bytes@);
        }
        read_le(array_as_slice(&bytes), 0, 8)
    }

    fn from_be_bytes(bytes: [u8; 8]) -> (r: Self) {
        proof {
            assert(array_as_slice(&bytes)@.subrange(0, 8) =~= bytes@);
        }
        read_be(array_as_slice(&bytes), 0, 8)
    }
}

impl GenericBytes<8> for Address {
    open spec fn gb_int(&self) -> int {
        self.0 as int
    }

    fn from_le_bytes(bytes: [u8; 8]) -> (r: Self) {
        Address(<u64 as GenericBytes<8>>::from_le_bytes(bytes))
    }

    fn from_be_bytes(bytes: [u8; 8]) -> (r: Self) {
        Address(<u64 as GenericBytes<8>>::from_be_bytes(bytes))
    }
}

/// The index of the first NUL byte of a sequence, or its length when
/// no byte is NUL.
pub open spec fn first_nul(s: Seq<u8>) -> int
    decreases s.len(),
{
    if s.len() == 0 {
        0
    } else if s[0] == 0 {
        0
    } else {
        1 + first_nul(s.drop_first())
    }
}

/// The bytes before the first NUL: the span name resolution decodes.
pub open spec fn nul_span(s: Seq<u8>) -> Seq<u8> {
    s.take(first_nul(s))
}

/// `first_nul` is the position of the first NUL: every byte before `n`
/// is non-NUL and the byte at `n`, if any, is NUL, exactly when
/// `first_nul` is `n`.
pub proof fn lemma_first_nul_at(s: Seq<u8>, n: int)
    requires
        0 <= n <= s.len(),
        forall|k: int| 0 <= k < n ==> s[k] != 0,
        n < s.len() ==> s[n] == 0,
    ensures
        first_nul(s) == n,
    decreases s.len(),
{
    if s.len() > 0 && n > 0 {
        let rest = s.drop_first();
        assert(forall|k: int| 0 <= k < n - 1 ==> rest[k] == s[k + 1] && rest[k] != 0);
        lemma_first_nul_at(rest, n - 1);
    }
}

/// Relies on `String::from_utf8`, which returns the string decoded
/// from the given bytes exactly when they are a valid UTF-8 encoding,
/// and refuses them otherwise.
#[verifier::external_body]
fn string_from_utf8(v: Vec<u8>) -> (r: Option<String>)
    ensures
        r matches Some(s) ==> valid_utf8(v@) && s@ == decode_utf8(v@),
        r is None ==> !valid_utf8(v@),
{
    String::from_utf8(v).ok()
}

/// Decodes the text between the start of `src` and its first NUL byte
/// (or its end): the resolution step of a string table lookup. Bytes
/// that are not valid text are refused.
pub fn str_from_u8(src: &[u8]) -> (r: Result<String, ParseError>)
    ensures
        r matches Ok(t) ==> valid_utf8(nul_span(src@)) && t@ == decode_utf8(nul_span(src@)),
        r matches Err(e) ==> !valid_utf8(nul_span(src@)) && e == ParseError::InvalidText,
{
    let len = src.len();
    let mut n: usize = 0;
    while n < len && src[n] != 0
        invariant
            0 <= n <= len == src@.len(),
            forall|k: int| 0 <= k < n ==> src@[k] != 0,
        decreases len - n,
    {
        n = n + 1;
    }
    proof {
        lemma_first_nul_at(src@, n as int);
    }
    let mut span: Vec<u8> = Vec::new();
    let mut i: usize = 0;
    while i < n
        invariant
            i <= n <= len == src@.len(),
            span@ =~= src@.subrange(0, i as int),
        decreases n - i,
    {
        span.push(src[i]);
        i = i + 1;
    }
    proof {
        assert(span@ =~= nul_span(src@));
    }
    match string_from_utf8(span) {
        Some(t) => Ok(t),
        None => Err(ParseError::InvalidText),
    }
}

/// Decodes `bytes` in the byte order named by `endianness`.
pub fn convert<T: GenericBytes<N>, const N: usize>(bytes: [u8; N], endianness: ElfHData) -> (r: T)
    ensures
        endianness is ElfData2Lsb ==> r.gb_int() == le_bytes(bytes@),
        endianness is ElfData2Msb ==> r.gb_int() == be_bytes(bytes@),
{
    match endianness {
        ElfHData::ElfData2Msb => T::from_be_bytes(bytes),
        ElfHData::ElfData2Lsb => T::from_le_bytes(bytes),
    }
}

} // verus!
