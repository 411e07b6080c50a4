use vstd::prelude::*;
use vstd::slice::slice_subrange;
use byteorder::ByteOrder;

verus! {

/// The unsigned 16-bit number whose low byte is `lo`.
pub open spec fn u16_of(lo: u8, hi: u8) -> int {
    lo + 256 * hi
}

/// The unsigned 32-bit number of four bytes, least significant first.
pub open spec fn u32_of(b0: u8, b1: u8, b2: u8, b3: u8) -> int {
    b0 + 256 * b1 + 65536 * b2 + 16777216 * b3
}

/// The little-endian unsigned 16-bit number at `at`.
pub open spec fn u16_le(s: Seq<u8>, at: int) -> int {
    u16_of(s[at], s[at + 1])
}

/// The little-endian signed 16-bit number at `at`, in two's complement.
pub open spec fn i16_le(s: Seq<u8>, at: int) -> int {
    if u16_le(s, at) < 32768 {
        u16_le(s, at)
    } else {
        u16_le(s, at) - 65536
    }
}

/// The little-endian unsigned 32-bit number at `at`.
pub open spec fn u32_le(s: Seq<u8>, at: int) -> int {
    u32_of(s[at], s[at + 1], s[at + 2], s[at + 3])
}

/// The little-endian signed 32-bit number at `at`, in two's complement.
pub open spec fn i32_le(s: Seq<u8>, at: int) -> int {
    if u32_le(s, at) < 0x8000_0000 {
        u32_le(s, at)
    } else {
        u32_le(s, at) - 0x1_0000_0000
    }
}

/// The big-endian unsigned 32-bit number at `at`.
pub open spec fn u32_be(s: Seq<u8>, at: int) -> int {
    u32_of(s[at + 3], s[at + 2], s[at + 1], s[at])
}

/// The four bytes of `n`, most significant first.
pub open spec fn be_bytes(n: u32) -> Seq<u8> {
    seq![
        (n / 16777216) as u8,
        (n / 65536 % 256) as u8,
        (n / 256 % 256) as u8,
        (n % 256) as u8,
    ]
}

/// `byteorder::LittleEndian::read_u16`: the number made of the first two
/// bytes of `buf`, the first being the low byte. The outside function panics
/// on a shorter buffer.
#[verifier::external_body]
fn le_u16(buf: &[u8]) -> (r: u16)
    requires
        buf.len() >= 2,
    ensures
        r == u16_le(buf@, 0),
{
    byteorder::LittleEndian::read_u16(buf)
}

/// `byteorder::LittleEndian::read_i16`: the first two bytes of `buf`, low
/// byte first, read as a number in two's complement. The outside function
/// panics on a shorter buffer.
#[verifier::external_body]
fn le_i16(buf: &[u8]) -> (r: i16)
    requires
        buf.len() >= 2,
    ensures
        r == i16_le(buf@, 0),
{
    byteorder::LittleEndian::read_i16(buf)
}

/// `byteorder::LittleEndian::read_u32`: the number made of the first four
/// bytes of `buf`, least significant first. The outside function panics on a
/// shorter buffer.
#[verifier::external_body]
fn le_u32(buf: &[u8]) -> (r: u32)
    requires
        buf.len() >= 4,
    ensures
        r == u32_le(buf@, 0),
{
    byteorder::LittleEndian::read_u32(buf)
}

/// `byteorder::LittleEndian::read_i32`: the first four bytes of `buf`,
/// least significant first, read as a number in two's complement. The
/// outside function panics on a shorter buffer.
#[verifier::external_body]
fn le_i32(buf: &[u8]) -> (r: i32)
    requires
        buf.len() >= 4,
    ensures
        r == i32_le(buf@, 0),
{
    byteorder::LittleEndian::read_i32(buf)
}

/// `byteorder::BigEndian::read_u32`: the number made of the first four
/// bytes of `buf`, most significant first. The outside function panics on a
/// shorter buffer.
#[verifier::external_body]
fn be_u32(buf: &[u8]) -> (r: u32)
    requires
        buf.len() >= 4,
    ensures
        r == u32_be(buf@, 0),
{
    byteorder::BigEndian::read_u32(buf)
}

/// `byteorder::BigEndian::write_u32`: the four bytes of `n`, most
/// significant first, as the outside function writes them into a buffer of
/// four bytes.
#[verifier::external_body]
fn be_u32_bytes(n: u32) -> (r: [u8; 4])
    ensures
        r@ == be_bytes(n),
{
    let mut buf = [0u8; 4];
    byteorder::BigEndian::write_u32(&mut buf, n);
    buf
}

/// `String::from_utf8` of the standard library: the string that the bytes
/// spell in UTF-8, or nothing when they are not valid UTF-8.
#[verifier::external_body]
pub(crate) fn utf8_string(bytes: Vec<u8>) -> (r: Option<String>)
    ensures
        r is Some <==> vstd::utf8::valid_utf8(bytes@),
        r matches Some(s) ==> s@ == vstd::utf8::decode_utf8(bytes@),
{
    String::from_utf8(bytes).ok()
}

/// A copy of the bytes from `from` up to `to`.
pub fn copy_range(data: &[u8], from: usize, to: usize) -> (r: Vec<u8>)
    requires
        from <= to <= data.len(),
    ensures
        r@ == data@.subrange(from as int, to as int),
{
    let mut out: Vec<u8> = Vec::new();
    let mut i: usize = from;
    while i < to
        invariant
            from <= i <= to,
            to <= data.len(),
            out@ == data@.subrange(from as int, i as int),
        decreases to - i,
    {
        out.push(data[i]);
        assert(out@ =~= data@.subrange(from as int, i + 1));
        i += 1;
    }
    out
}

/// The little-endian unsigned 16-bit number at `at`.
pub fn read_u16(data: &[u8], at: usize) -> (r: u16)
    requires
        at + 2 <= data.len(),
    ensures
        r == u16_le(data@, at as int),
{
    le_u16(slice_subrange(data, at, at + 2))
}

/// The little-endian signed 16-bit number at `at`.
pub fn read_i16(data: &[u8], at: usize) -> (r: i16)
    requires
        at + 2 <= data.len(),
    ensures
        r == i16_le(data@, at as int),
{
    le_i16(slice_subrange(data, at, at + 2))
}

/// The little-endian unsigned 32-bit number at `at`.
pub fn read_u32(data: &[u8], at: usize) -> (r: u32)
    requires
        at + 4 <= data.len(),
    ensures
        r == u32_le(data@, at as int),
{
    le_u32(slice_subrange(data, at, at + 4))
}

/// The little-endian signed 32-bit number at `at`.
pub fn read_i32(data: &[u8], at: usize) -> (r: i32)
    requires
        at + 4 <= data.len(),
    ensures
        r == i32_le(data@, at as int),
{
    le_i32(slice_subrange(data, at, at + 4))
}

/// The big-endian unsigned 32-bit number at `at`.
pub fn read_u32_be(data: &[u8], at: usize) -> (r: u32)
    requires
        at + 4 <= data.len(),
    ensures
        r == u32_be(data@, at as int),
{
    be_u32(slice_subrange(data, at, at + 4))
}

/// Appends the four bytes of `n`, most significant first.
pub fn push_u32_be(out: &mut Vec<u8>, n: u32)
    ensures
        final(out)@ == old(out)@ + be_bytes(n),
{
    let b = be_u32_bytes(n);
    out.push(b[0]);
    out.push(b[1]);
    out.push(b[2]);
    out.push(b[3]);
    assert(out@ =~= old(out)@ + be_bytes(n));
}

/// Appends all of `bytes`.
pub fn push_all(out: &mut Vec<u8>, bytes: &[u8])
    ensures
        final(out)@ == old(out)@ + bytes@,
{
    let mut i: usize = 0;
    while i < bytes.len()
        invariant
            i <= bytes.len(),
            out@ == old(out)@ + bytes@.take(i as int),
        decreases bytes.len() - i,
    {
        out.push(bytes[i]);
        assert(out@ =~= old(out)@ + bytes@.take(i + 1));
        i += 1;
    }
    assert(bytes@.take(i as int) =~= bytes@);
}

/// Reading back what `be_bytes` wrote gives the number again.
pub proof fn lemma_be_round_trip(n: u32, s: Seq<u8>, at: int)
    requires
        0 <= at,
        at + 4 <= s.len(),
        s.subrange(at, at + 4) == be_bytes(n),
    ensures
        u32_be(s, at) == n,
{
    let b = be_bytes(n);
    assert(s[at] == s.subrange(at, at + 4)[0]);
    assert(s[at + 1] == s.subrange(at, at + 4)[1]);
    assert(s[at + 2] == s.subrange(at, at + 4)[2]);
    assert(s[at + 3] == s.subrange(at, at + 4)[3]);
    assert(b[0] == (n / 16777216) as u8);
    assert(b[1] == (n / 65536 % 256) as u8);
    assert(b[2] == (n / 256 % 256) as u8);
    assert(b[3] == (n % 256) as u8);
    let v = n as int;
    assert(v == (v / 16777216) * 16777216 + (v / 65536 % 256) * 65536 + (v / 256 % 256) * 256 + v
        % 256) by (nonlinear_arith)
        requires
            0 <= v < 0x1_0000_0000,
    ;
    assert(v / 16777216 < 256) by (nonlinear_arith)
        requires
            0 <= v < 0x1_0000_0000,
    ;
}

} // verus!
