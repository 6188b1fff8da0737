//! Fixed-width integers and null-terminated text fields in a byte buffer.
use vstd::prelude::*;
use vstd::slice::{slice_subrange, slice_to_vec};
use vstd::utf8::{decode_utf8, valid_utf8};

verus! {

/// The unsigned value of the four little-endian bytes of `b` at `at`.
pub open spec fn le_u32_at(b: Seq<u8>, at: int) -> u32 {
    (b[at] as int + 256 * b[at + 1] as int + 65536 * b[at + 2] as int + 16777216 * b[at + 3] as int) as u32
}

/// The two's complement value of the four little-endian bytes of `b` at `at`.
pub open spec fn le_i32_at(b: Seq<u8>, at: int) -> i32 {
    let u = le_u32_at(b, at) as int;
    if u < 0x8000_0000 {
        u as i32
    } else {
        (u - 0x1_0000_0000) as i32
    }
}

/// The four little-endian bytes of `u`.
pub open spec fn le_u32_bytes(u: u32) -> Seq<u8> {
    seq![
        (u % 256) as u8,
        ((u / 256) % 256) as u8,
        ((u / 65536) % 256) as u8,
        (u / 16777216) as u8,
    ]
}

/// The four little-endian two's complement bytes of `x`.
pub open spec fn le_i32_bytes(x: i32) -> Seq<u8> {
    if x >= 0 {
        le_u32_bytes(x as u32)
    } else {
        le_u32_bytes((x + 0x1_0000_0000) as u32)
    }
}

/// Reads a little-endian `u32` at `at`.
pub fn read_u32_le(buf: &[u8], at: usize) -> (r: u32)
    requires
        at + 4 <= buf@.len(),
    ensures
        r == le_u32_at(buf@, at as int),
{
    let b0 = buf[at] as u32;
    let b1 = buf[at + 1] as u32;
    let b2 = buf[at + 2] as u32;
    let b3 = buf[at + 3] as u32;
    b0 + b1 * 256 + b2 * 65536 + b3 * 16777216
}

/// Reads a little-endian `i32` at `at`.
pub fn read_i32_le(buf: &[u8], at: usize) -> (r: i32)
    requires
        at + 4 <= buf@.len(),
    ensures
        r == le_i32_at(buf@, at as int),
{
    let u = read_u32_le(buf, at);
    if u < 0x8000_0000 {
        u as i32
    } else {
        ((u - 0x8000_0000) as i32) - 0x7fff_ffff - 1
    }
}

/// Appends the four little-endian bytes of `u` to `out`.
pub fn push_u32_le(out: &mut Vec<u8>, u: u32)
    ensures
        final(out)@ == old(out)@ + le_u32_bytes(u),
{
    out.push((u % 256) as u8);
    out.push(((u / 256) % 256) as u8);
    out.push(((u / 65536) % 256) as u8);
    out.push((u / 16777216) as u8);
    assert(final(out)@ =~= old(out)@ + le_u32_bytes(u));
}

/// Appends the four little-endian two's complement bytes of `x` to `out`.
pub fn push_i32_le(out: &mut Vec<u8>, x: i32)
    ensures
        final(out)@ == old(out)@ + le_i32_bytes(x),
{
    if x >= 0 {
        push_u32_le(out, x as u32);
    } else {
        let u = ((x + 0x7fff_ffff + 1) as u32) + 0x8000_0000;
        push_u32_le(out, u);
    }
}

/// Reading back the bytes written for `u` gives `u`.
pub proof fn lemma_le_u32_round_trip(u: u32)
    ensures
        le_u32_at(le_u32_bytes(u), 0) == u,
{
    let b = le_u32_bytes(u);
    assert(b[0] as int + 256 * b[1] as int + 65536 * b[2] as int + 16777216 * b[3] as int == u)
        by (nonlinear_arith)
        requires
            b[0] == u % 256,
            b[1] == (u / 256) % 256,
            b[2] == (u / 65536) % 256,
            b[3] == u / 16777216,
    ;
}

/// Writing back the value read from four bytes gives those bytes.
pub proof fn lemma_le_u32_bytes_of_read(b: Seq<u8>, at: int)
    requires
        0 <= at,
        at + 4 <= b.len(),
    ensures
        le_u32_bytes(le_u32_at(b, at)) == b.subrange(at, at + 4),
{
    let b0 = b[at] as int;
    let b1 = b[at + 1] as int;
    let b2 = b[at + 2] as int;
    let b3 = b[at + 3] as int;
    let u = b0 + 256 * b1 + 65536 * b2 + 16777216 * b3;
    assert(0 <= u < 0x1_0000_0000);
    assert(u % 256 == b0 && (u / 256) % 256 == b1 && (u / 65536) % 256 == b2 && u / 16777216 == b3)
        by (nonlinear_arith)
        requires
            u == b0 + 256 * b1 + 65536 * b2 + 16777216 * b3,
            0 <= b0 < 256,
            0 <= b1 < 256,
            0 <= b2 < 256,
            0 <= b3 < 256,
    ;
    assert(le_u32_bytes(le_u32_at(b, at)) =~= b.subrange(at, at + 4));
}

/// A four-byte value depends only on its own four bytes.
pub proof fn lemma_le_window(b: Seq<u8>, at: int)
    requires
        0 <= at,
        at + 4 <= b.len(),
    ensures
        le_u32_at(b, at) == le_u32_at(b.subrange(at, at + 4), 0),
        le_i32_at(b, at) == le_i32_at(b.subrange(at, at + 4), 0),
{
}

/// Reading back the bytes written for `x` gives `x`.
pub proof fn lemma_le_i32_round_trip(x: i32)
    ensures
        le_i32_at(le_i32_bytes(x), 0) == x,
{
    if x >= 0 {
        lemma_le_u32_round_trip(x as u32);
    } else {
        lemma_le_u32_round_trip((x + 0x1_0000_0000) as u32);
    }
}

/// Writing back the signed value read from four bytes gives those bytes.
pub proof fn lemma_le_i32_bytes_of_read(b: Seq<u8>, at: int)
    requires
        0 <= at,
        at + 4 <= b.len(),
    ensures
        le_i32_bytes(le_i32_at(b, at)) == b.subrange(at, at + 4),
{
    lemma_le_u32_bytes_of_read(b, at);
}

/// Width in bytes of each text field of the header.
pub const HL2_MAX_OS_PATH: usize = 260;

/// Number of leading bytes of `f` before its first null byte (all of `f` if it has none).
pub open spec fn text_end(f: Seq<u8>) -> nat
    decreases f.len(),
{
    if f.len() == 0 || f[0] == 0 {
        0
    } else {
        1 + text_end(f.drop_first())
    }
}

/// The bytes of `f` up to, not including, its first null byte.
pub open spec fn until_nul(f: Seq<u8>) -> Seq<u8> {
    f.take(text_end(f) as int)
}

/// The text of the fixed-width field of `b` that starts at `start`: its bytes
/// up to the first null byte; what follows the terminator is padding.
pub open spec fn field_text(b: Seq<u8>, start: int) -> Seq<u8> {
    until_nul(b.subrange(start, start + HL2_MAX_OS_PATH))
}

/// `text_end` is the index of the first null byte, or the length when there is none.
pub proof fn lemma_text_end(f: Seq<u8>, i: int)
    requires
        0 <= i <= f.len(),
        forall|j: int| 0 <= j < i ==> f[j] != 0,
        i == f.len() || f[i] == 0,
    ensures
        text_end(f) == i,
    decreases i,
{
    if i > 0 {
        lemma_text_end(f.drop_first(), i - 1);
    }
}

/// `text_end` never passes the end of the field.
pub proof fn lemma_text_end_bound(f: Seq<u8>)
    ensures
        text_end(f) <= f.len(),
        text_end(f) < f.len() ==> f[text_end(f) as int] == 0,
        forall|j: int| 0 <= j < text_end(f) ==> f[j] != 0,
    decreases f.len(),
{
    if f.len() != 0 && f[0] != 0 {
        lemma_text_end_bound(f.drop_first());
        assert forall|j: int| 0 <= j < text_end(f) implies f[j] != 0 by {
            if j > 0 {
                assert(f[j] == f.drop_first()[j - 1]);
            }
        }
    }
}

/// Counts the bytes of the field at `start` that come before its first null byte.
pub fn text_len(buf: &[u8], start: usize) -> (n: usize)
    requires
        start + HL2_MAX_OS_PATH <= buf@.len(),
    ensures
        n == text_end(buf@.subrange(start as int, start + HL2_MAX_OS_PATH)),
        n <= HL2_MAX_OS_PATH,
{
    let len = buf.len();
    let mut i: usize = 0;
    while i < HL2_MAX_OS_PATH && buf[start + i] != 0
        invariant
            i <= HL2_MAX_OS_PATH,
            start + HL2_MAX_OS_PATH <= len,
            len == buf@.len(),
            forall|j: int| start <= j < start + i ==> buf@[j] != 0,
        decreases HL2_MAX_OS_PATH - i,
    {
        i = i + 1;
    }
    proof {
        lemma_text_end(buf@.subrange(start as int, start + HL2_MAX_OS_PATH), i as int);
    }
    i
}

/// Relies on `String::from_utf8`: it succeeds exactly when the bytes are valid
/// UTF-8, and the string then holds the characters that they encode.
#[verifier::external_body]
fn string_from_utf8(v: Vec<u8>) -> (r: Option<String>)
    ensures
        r is Some <==> valid_utf8(v@),
        r matches Some(s) ==> s@ == decode_utf8(v@),
{
    String::from_utf8(v).ok()
}

/// Decodes the null-terminated UTF-8 text of the field at `start`;
/// `None` when that text is not valid UTF-8.
pub fn read_text_field(buf: &[u8], start: usize) -> (r: Option<String>)
    requires
        start + HL2_MAX_OS_PATH <= buf@.len(),
    ensures
        r is Some <==> valid_utf8(field_text(buf@, start as int)),
        r matches Some(s) ==> s@ == decode_utf8(field_text(buf@, start as int)),
{
    let n = text_len(buf, start);
    let len = buf.len();
    assert(start + n <= len);
    let bytes = slice_to_vec(slice_subrange(buf, start, start + n));
    assert(bytes@ =~= field_text(buf@, start as int));
    string_from_utf8(bytes)
}

} // verus!
