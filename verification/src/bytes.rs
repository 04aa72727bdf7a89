//! Little-endian words and text validity: what the decoder takes from
//! `byteorder` and from `core::str`, with the meaning of each call stated over
//! byte sequences.
use byteorder::ByteOrder;
use byteorder::LittleEndian;
use vstd::prelude::*;
use vstd::utf8::valid_utf8;

verus! {

/// True when `data` holds `n` bytes from position `at` on.
pub open spec fn has_bytes(data: Seq<u8>, at: int, n: int) -> bool {
    0 <= at && at + n <= data.len()
}

/// The unsigned 32-bit value whose four bytes, least significant first, stand
/// in `s` from position `at` on.
pub open spec fn le_u32_at(s: Seq<u8>, at: int) -> u32 {
    (s[at] + 0x100 * s[at + 1] + 0x1_0000 * s[at + 2] + 0x100_0000 * s[at + 3]) as u32
}

/// The signed 32-bit value with the same four bytes in two's complement.
pub open spec fn le_i32_at(s: Seq<u8>, at: int) -> i32 {
    let u = le_u32_at(s, at);
    if u < 0x8000_0000 {
        u as i32
    } else {
        (u - 0x1_0000_0000) as i32
    }
}

/// The four bytes of `v`, least significant first.
pub open spec fn le_bytes(v: u32) -> Seq<u8> {
    seq![
        (v % 0x100) as u8,
        ((v / 0x100) % 0x100) as u8,
        ((v / 0x1_0000) % 0x100) as u8,
        (v / 0x100_0000) as u8,
    ]
}

/// The unsigned value with the same 32 bits as `v` in two's complement.
pub open spec fn twos_complement(v: i32) -> u32 {
    if v < 0 {
        (v + 0x1_0000_0000) as u32
    } else {
        v as u32
    }
}

/// Reading back the bytes of a word gives the word, wherever they stand.
pub proof fn lemma_le_bytes_read_back(s: Seq<u8>, at: int, v: u32)
    requires
        has_bytes(s, at, 4),
        s.subrange(at, at + 4) == le_bytes(v),
    ensures
        le_u32_at(s, at) == v,
{
    let w = s.subrange(at, at + 4);
    assert(w[0] == s[at] && w[1] == s[at + 1] && w[2] == s[at + 2] && w[3] == s[at + 3]);
}

/// Reading back the bytes of a signed word gives the word, wherever they
/// stand.
pub proof fn lemma_le_bytes_read_back_signed(s: Seq<u8>, at: int, v: i32)
    requires
        has_bytes(s, at, 4),
        s.subrange(at, at + 4) == le_bytes(twos_complement(v)),
    ensures
        le_i32_at(s, at) == v,
{
    lemma_le_bytes_read_back(s, at, twos_complement(v));
}

/// `byteorder::LittleEndian::read_u32`: the value of the first four bytes of
/// `buf`, least significant first. The call panics on a shorter slice, which
/// the precondition leaves out.
#[verifier::external_body]
pub(crate) fn le_u32(buf: &[u8]) -> (v: u32)
    requires
        buf@.len() >= 4,
    ensures
        v == le_u32_at(buf@, 0),
{
    LittleEndian::read_u32(buf)
}

/// `byteorder::LittleEndian::read_i32`: the first four bytes of `buf` read as
/// an unsigned little-endian word and reinterpreted in two's complement. The
/// call panics on a shorter slice, which the precondition leaves out.
#[verifier::external_body]
pub(crate) fn le_i32(buf: &[u8]) -> (v: i32)
    requires
        buf@.len() >= 4,
    ensures
        v == le_i32_at(buf@, 0),
{
    LittleEndian::read_i32(buf)
}

/// `byteorder::LittleEndian::write_u32` into a fresh four-byte array: the
/// bytes of `v`, least significant first.
#[verifier::external_body]
pub(crate) fn u32_le_bytes(v: u32) -> (b: [u8; 4])
    ensures
        b@ == le_bytes(v),
{
    let mut b = [0u8; 4];
    LittleEndian::write_u32(&mut b, v);
    b
}

/// `byteorder::LittleEndian::write_i32` into a fresh four-byte array: the
/// bytes of the two's complement of `v`, least significant first.
#[verifier::external_body]
pub(crate) fn i32_le_bytes(v: i32) -> (b: [u8; 4])
    ensures
        b@ == le_bytes(twos_complement(v)),
{
    let mut b = [0u8; 4];
    LittleEndian::write_i32(&mut b, v);
    b
}

#[verifier::external_type_specification]
#[verifier::external_body]
pub struct ExUtf8Error(core::str::Utf8Error);

/// `core::str::from_utf8` succeeds exactly on the byte slices that are valid
/// UTF-8.
pub assume_specification[ core::str::from_utf8 ](v: &[u8]) -> (r: Result<
    &str,
    core::str::Utf8Error,
>)
    ensures
        r.is_ok() <==> valid_utf8(v@),
;

} // verus!
