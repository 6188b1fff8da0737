//! The fixed 1072-byte header at the start of a demo file.
use crate::error::DecodeError;
use crate::wire::{
    field_text, le_i32_at, le_i32_bytes, le_u32_at, le_u32_bytes, lemma_le_i32_bytes_of_read,
    lemma_le_i32_round_trip, lemma_le_u32_bytes_of_read, lemma_le_u32_round_trip,
    lemma_le_window, lemma_text_end, lemma_text_end_bound, push_i32_le, push_u32_le,
    read_i32_le, read_text_field, read_u32_le, text_end, HL2_MAX_OS_PATH,
};
use vstd::prelude::*;
use vstd::utf8::{
    decode_utf8, decode_utf8_encode_utf8, encode_utf8, encode_utf8_decode_utf8,
    encode_utf8_valid_utf8, valid_utf8,
};

verus! {

/// The one demo protocol version that is understood.
pub const DEMO_PROTOCOL: i32 = 3;

/// Length of the header: the identifier, six four-byte numbers and four text fields.
pub const DEMO_HEADER_BYTES_LEN: usize = 1072;

/// Offsets of the header's fields.
pub const DEMO_PROTOCOL_AT: usize = 8;
pub const NET_PROTOCOL_AT: usize = 12;
pub const SERVER_NAME_AT: usize = 16;
pub const CLIENT_NAME_AT: usize = 276;
pub const MAP_NAME_AT: usize = 536;
pub const GAME_DIR_AT: usize = 796;
pub const TIME_AT: usize = 1056;
pub const TICKS_AT: usize = 1060;
pub const FRAMES_AT: usize = 1064;
pub const SIGN_ON_LENGTH_AT: usize = 1068;

/// The identifier that opens every demo file: `HL2DEMO` and a null byte.
pub open spec fn demo_magic() -> Seq<u8> {
    seq![72u8, 76u8, 50u8, 68u8, 69u8, 77u8, 79u8, 0u8]
}

/// A decoded header as mathematical values.
pub struct HeaderModel {
    pub demo_protocol: i32,
    pub net_protocol: i32,
    pub server_name: Seq<char>,
    pub client_name: Seq<char>,
    pub map_name: Seq<char>,
    pub game_dir: Seq<char>,
    pub time_bits: u32,
    pub ticks: i32,
    pub frames: i32,
    pub sign_on_length: i32,
}

/// The decoded header of a demo file.
#[derive(Debug)]
pub struct DemoHeader {
    pub demo_protocol: i32,
    pub net_protocol: i32,
    pub server_name: String,
    pub client_name: String,
    pub map_name: String,
    pub game_dir: String,
    /// The IEEE 754 bit pattern of the demo's length in seconds (an `f32`).
    pub time_bits: u32,
    /// The number of ticks in the demo.
    pub ticks: i32,
    /// The number of frames in the demo.
    pub frames: i32,
    /// Length of the sign-on data that follows the header.
    pub sign_on_length: i32,
}

impl View for DemoHeader {
    type V = HeaderModel;

    open spec fn view(&self) -> HeaderModel {
        HeaderModel {
            demo_protocol: self.demo_protocol,
            net_protocol: self.net_protocol,
            server_name: self.server_name@,
            client_name: self.client_name@,
            map_name: self.map_name@,
            game_dir: self.game_dir@,
            time_bits: self.time_bits,
            ticks: self.ticks,
            frames: self.frames,
            sign_on_length: self.sign_on_length,
        }
    }
}

/// Whether all four text fields of `b` hold valid UTF-8.
pub open spec fn text_fields_valid(b: Seq<u8>) -> bool {
    &&& valid_utf8(field_text(b, SERVER_NAME_AT as int))
    &&& valid_utf8(field_text(b, CLIENT_NAME_AT as int))
    &&& valid_utf8(field_text(b, MAP_NAME_AT as int))
    &&& valid_utf8(field_text(b, GAME_DIR_AT as int))
}

/// What decoding the header at the start of `b` gives.
pub open spec fn spec_decode(b: Seq<u8>) -> Result<HeaderModel, DecodeError> {
    if b.len() < DEMO_HEADER_BYTES_LEN {
        Err(DecodeError::Truncated)
    } else if b.subrange(0, 8) != demo_magic() {
        Err(DecodeError::BadMagic)
    } else if le_i32_at(b, DEMO_PROTOCOL_AT as int) != DEMO_PROTOCOL {
        Err(DecodeError::UnsupportedProtocol)
    } else if !text_fields_valid(b) {
        Err(DecodeError::InvalidString)
    } else {
        Ok(
            HeaderModel {
                demo_protocol: le_i32_at(b, DEMO_PROTOCOL_AT as int),
                net_protocol: le_i32_at(b, NET_PROTOCOL_AT as int),
                server_name: decode_utf8(field_text(b, SERVER_NAME_AT as int)),
                client_name: decode_utf8(field_text(b, CLIENT_NAME_AT as int)),
                map_name: decode_utf8(field_text(b, MAP_NAME_AT as int)),
                game_dir: decode_utf8(field_text(b, GAME_DIR_AT as int)),
                time_bits: le_u32_at(b, TIME_AT as int),
                ticks: le_i32_at(b, TICKS_AT as int),
                frames: le_i32_at(b, FRAMES_AT as int),
                sign_on_length: le_i32_at(b, SIGN_ON_LENGTH_AT as int),
            },
        )
    }
}

/// Whether `buf` opens with the demo identifier.
fn has_demo_magic(buf: &[u8]) -> (r: bool)
    requires
        buf@.len() >= 8,
    ensures
        r == (buf@.subrange(0, 8) == demo_magic()),
{
    let r = buf[0] == 72 && buf[1] == 76 && buf[2] == 50 && buf[3] == 68 && buf[4] == 69
        && buf[5] == 77 && buf[6] == 79 && buf[7] == 0;
    proof {
        if r {
            assert(buf@.subrange(0, 8) =~= demo_magic());
        } else if buf@.subrange(0, 8) == demo_magic() {
            assert(buf@.subrange(0, 8)[0] == buf@[0]);
            assert(buf@.subrange(0, 8)[1] == buf@[1]);
            assert(buf@.subrange(0, 8)[2] == buf@[2]);
            assert(buf@.subrange(0, 8)[3] == buf@[3]);
            assert(buf@.subrange(0, 8)[4] == buf@[4]);
            assert(buf@.subrange(0, 8)[5] == buf@[5]);
            assert(buf@.subrange(0, 8)[6] == buf@[6]);
            assert(buf@.subrange(0, 8)[7] == buf@[7]);
        }
    }
    r
}

impl DemoHeader {
    /// Decodes the header at the start of `buf`. Checks, in this order, that
    /// the buffer holds a whole header, that it opens with the identifier, that
    /// the protocol is the supported one and that each text field is UTF-8.
    pub fn read(buf: &[u8]) -> (r: Result<DemoHeader, DecodeError>)
        ensures
            r matches Ok(h) ==> spec_decode(buf@) == Ok::<HeaderModel, DecodeError>(h@),
            r matches Err(e) ==> spec_decode(buf@) == Err::<HeaderModel, DecodeError>(e),
    {
        if buf.len() < DEMO_HEADER_BYTES_LEN {
            return Err(DecodeError::Truncated);
        }
        if !has_demo_magic(buf) {
            return Err(DecodeError::BadMagic);
        }
        let demo_protocol = read_i32_le(buf, DEMO_PROTOCOL_AT);
        if demo_protocol != DEMO_PROTOCOL {
            return Err(DecodeError::UnsupportedProtocol);
        }
        let net_protocol = read_i32_le(buf, NET_PROTOCOL_AT);
        let server_name = match read_text_field(buf, SERVER_NAME_AT) {
            Some(s) => s,
            None => return Err(DecodeError::InvalidString),
        };
        let client_name = match read_text_field(buf, CLIENT_NAME_AT) {
            Some(s) => s,
            None => return Err(DecodeError::InvalidString),
        };
        let map_name = match read_text_field(buf, MAP_NAME_AT) {
            Some(s) => s,
            None => return Err(DecodeError::InvalidString),
        };
        let game_dir = match read_text_field(buf, GAME_DIR_AT) {
            Some(s) => s,
            None => return Err(DecodeError::InvalidString),
        };
        let time_bits = read_u32_le(buf, TIME_AT);
        let ticks = read_i32_le(buf, TICKS_AT);
        let frames = read_i32_le(buf, FRAMES_AT);
        let sign_on_length = read_i32_le(buf, SIGN_ON_LENGTH_AT);
        let h = DemoHeader {
            demo_protocol,
            net_protocol,
            server_name,
            client_name,
            map_name,
            game_dir,
            time_bits,
            ticks,
            frames,
            sign_on_length,
        };
        Ok(h)
    }
}

/// The fixed-width field that holds the text `s`: its UTF-8 bytes, then zeros.
pub open spec fn padded_field(s: Seq<char>) -> Seq<u8> {
    encode_utf8(s) + Seq::new((HL2_MAX_OS_PATH - encode_utf8(s).len()) as nat, |i: int| 0u8)
}

/// The header bytes that hold `m`, each text field padded with zeros.
pub open spec fn spec_encode(m: HeaderModel) -> Seq<u8> {
    demo_magic() + le_i32_bytes(m.demo_protocol) + le_i32_bytes(m.net_protocol) + padded_field(
        m.server_name,
    ) + padded_field(m.client_name) + padded_field(m.map_name) + padded_field(m.game_dir)
        + le_u32_bytes(m.time_bits) + le_i32_bytes(m.ticks) + le_i32_bytes(m.frames)
        + le_i32_bytes(m.sign_on_length)
}

/// Whether every byte after the terminator of the field at `start` is zero.
pub open spec fn field_zero_padded(b: Seq<u8>, start: int) -> bool {
    let f = b.subrange(start, start + HL2_MAX_OS_PATH);
    forall|j: int| text_end(f) < j < f.len() ==> f[j] == 0
}

/// Whether all four text fields of `b` are padded with zeros.
pub open spec fn text_fields_zero_padded(b: Seq<u8>) -> bool {
    &&& field_zero_padded(b, SERVER_NAME_AT as int)
    &&& field_zero_padded(b, CLIENT_NAME_AT as int)
    &&& field_zero_padded(b, MAP_NAME_AT as int)
    &&& field_zero_padded(b, GAME_DIR_AT as int)
}

/// Writing back the text decoded from a zero-padded field gives the field.
proof fn lemma_field_round_trip(b: Seq<u8>, start: int)
    requires
        0 <= start,
        start + HL2_MAX_OS_PATH <= b.len(),
        valid_utf8(field_text(b, start)),
        field_zero_padded(b, start),
    ensures
        padded_field(decode_utf8(field_text(b, start))) == b.subrange(start, start + HL2_MAX_OS_PATH),
{
    let f = b.subrange(start, start + HL2_MAX_OS_PATH);
    lemma_text_end_bound(f);
    decode_utf8_encode_utf8(field_text(b, start));
    assert(padded_field(decode_utf8(field_text(b, start))) =~= f);
}

/// Whether the UTF-8 bytes of `s` fit in one text field.
pub open spec fn fits_field(s: Seq<char>) -> bool {
    encode_utf8(s).len() <= HL2_MAX_OS_PATH
}

/// Appends the field that holds `s` to `out`; `false`, with `out` unchanged,
/// when `s` is too long for a field.
fn push_text_field(out: &mut Vec<u8>, s: &String) -> (ok: bool)
    ensures
        ok == fits_field(s@),
        ok ==> final(out)@ == old(out)@ + padded_field(s@),
        !ok ==> final(out)@ == old(out)@,
{
    let bytes = s.as_str().as_bytes();
    let n = bytes.len();
    if n > HL2_MAX_OS_PATH {
        return false;
    }
    let ghost start = out@;
    let mut i: usize = 0;
    while i < n
        invariant
            i <= n,
            n == bytes@.len(),
            bytes@ == encode_utf8(s@),
            out@ == start + bytes@.take(i as int),
        decreases n - i,
    {
        out.push(bytes[i]);
        assert(bytes@.take(i + 1) =~= bytes@.take(i as int).push(bytes@[i as int]));
        i = i + 1;
    }
    while i < HL2_MAX_OS_PATH
        invariant
            n <= i <= HL2_MAX_OS_PATH,
            n == bytes@.len(),
            bytes@ == encode_utf8(s@),
            out@ == start + bytes@ + Seq::new((i - n) as nat, |k: int| 0u8),
        decreases HL2_MAX_OS_PATH - i,
    {
        out.push(0);
        assert(Seq::new((i + 1 - n) as nat, |k: int| 0u8) =~= Seq::new(
            (i - n) as nat,
            |k: int| 0u8,
        ).push(0u8));
        i = i + 1;
    }
    assert(out@ =~= start + padded_field(s@));
    true
}

impl DemoHeader {
    /// The header bytes that hold this header, each text field padded with
    /// zeros; `None` when a text is longer than its field.
    pub fn to_bytes(&self) -> (r: Option<Vec<u8>>)
        ensures
            r is Some <==> (fits_field(self.server_name@) && fits_field(self.client_name@)
                && fits_field(self.map_name@) && fits_field(self.game_dir@)),
            r matches Some(v) ==> v@ == spec_encode(self@),
    {
        let mut out: Vec<u8> = Vec::new();
        out.push(72);
        out.push(76);
        out.push(50);
        out.push(68);
        out.push(69);
        out.push(77);
        out.push(79);
        out.push(0);
        assert(out@ =~= demo_magic());
        push_i32_le(&mut out, self.demo_protocol);
        push_i32_le(&mut out, self.net_protocol);
        if !push_text_field(&mut out, &self.server_name) {
            return None;
        }
        if !push_text_field(&mut out, &self.client_name) {
            return None;
        }
        if !push_text_field(&mut out, &self.map_name) {
            return None;
        }
        if !push_text_field(&mut out, &self.game_dir) {
            return None;
        }
        push_u32_le(&mut out, self.time_bits);
        push_i32_le(&mut out, self.ticks);
        push_i32_le(&mut out, self.frames);
        push_i32_le(&mut out, self.sign_on_length);
        Some(out)
    }
}

/// Decoding a header and writing its fields back reproduces the header's
/// bytes exactly, when each text field is padded with zeros after its text.
pub proof fn lemma_decode_then_encode(b: Seq<u8>)
    requires
        spec_decode(b) is Ok,
        text_fields_zero_padded(b),
    ensures
        spec_encode(spec_decode(b)->Ok_0) == b.subrange(0, DEMO_HEADER_BYTES_LEN as int),
{
    let m = spec_decode(b)->Ok_0;
    lemma_le_i32_bytes_of_read(b, 8);
    lemma_le_i32_bytes_of_read(b, 12);
    lemma_field_round_trip(b, 16);
    lemma_field_round_trip(b, 276);
    lemma_field_round_trip(b, 536);
    lemma_field_round_trip(b, 796);
    lemma_le_u32_bytes_of_read(b, 1056);
    lemma_le_i32_bytes_of_read(b, 1060);
    lemma_le_i32_bytes_of_read(b, 1064);
    lemma_le_i32_bytes_of_read(b, 1068);
    assert(spec_encode(m) =~= b.subrange(0, 1072));
}

/// Whether `s` can be written to a field and read back: its UTF-8 bytes fit
/// and none of them is a null byte.
pub open spec fn storable_text(s: Seq<char>) -> bool {
    &&& fits_field(s)
    &&& forall|i: int| 0 <= i < encode_utf8(s).len() ==> encode_utf8(s)[i] != 0
}

/// Reading the field written for a storable text gives the text back.
proof fn lemma_field_read_back(e: Seq<u8>, start: int, s: Seq<char>)
    requires
        0 <= start,
        start + HL2_MAX_OS_PATH <= e.len(),
        e.subrange(start, start + HL2_MAX_OS_PATH) == padded_field(s),
        storable_text(s),
    ensures
        field_text(e, start) == encode_utf8(s),
        valid_utf8(field_text(e, start)),
        decode_utf8(field_text(e, start)) == s,
{
    let f = padded_field(s);
    let n = encode_utf8(s).len() as int;
    assert forall|j: int| 0 <= j < n implies f[j] != 0 by {
        assert(f[j] == encode_utf8(s)[j]);
    }
    lemma_text_end(f, n);
    assert(f.take(n) =~= encode_utf8(s));
    encode_utf8_valid_utf8(s);
    encode_utf8_decode_utf8(s);
}

/// Writing a header of the supported protocol whose texts are storable, then
/// decoding the bytes, gives the same header back.
#[verifier::rlimit(40)]
pub proof fn lemma_encode_then_decode(m: HeaderModel)
    requires
        m.demo_protocol == DEMO_PROTOCOL,
        storable_text(m.server_name),
        storable_text(m.client_name),
        storable_text(m.map_name),
        storable_text(m.game_dir),
    ensures
        spec_decode(spec_encode(m)) == Ok::<HeaderModel, DecodeError>(m),
        text_fields_zero_padded(spec_encode(m)),
{
    let e = spec_encode(m);
    let a = demo_magic() + le_i32_bytes(m.demo_protocol) + le_i32_bytes(m.net_protocol);
    let b = a + padded_field(m.server_name);
    let c = b + padded_field(m.client_name);
    let d = c + padded_field(m.map_name);
    let g = d + padded_field(m.game_dir);
    let h = g + le_u32_bytes(m.time_bits);
    let i = h + le_i32_bytes(m.ticks);
    let j = i + le_i32_bytes(m.frames);
    assert(e == j + le_i32_bytes(m.sign_on_length));
    assert(e.len() == 1072);
    assert(e.subrange(0, 8) =~= demo_magic());
    assert(e.subrange(8, 12) =~= le_i32_bytes(m.demo_protocol));
    assert(e.subrange(12, 16) =~= le_i32_bytes(m.net_protocol));
    assert(e.subrange(16, 276) =~= padded_field(m.server_name));
    assert(e.subrange(276, 536) =~= padded_field(m.client_name));
    assert(e.subrange(536, 796) =~= padded_field(m.map_name));
    assert(e.subrange(796, 1056) =~= padded_field(m.game_dir));
    assert(e.subrange(1056, 1060) =~= le_u32_bytes(m.time_bits));
    assert(e.subrange(1060, 1064) =~= le_i32_bytes(m.ticks));
    assert(e.subrange(1064, 1068) =~= le_i32_bytes(m.frames));
    assert(e.subrange(1068, 1072) =~= le_i32_bytes(m.sign_on_length));
    lemma_le_window(e, 8);
    lemma_le_window(e, 12);
    lemma_le_window(e, 1056);
    lemma_le_window(e, 1060);
    lemma_le_window(e, 1064);
    lemma_le_window(e, 1068);
    lemma_le_i32_round_trip(m.demo_protocol);
    lemma_le_i32_round_trip(m.net_protocol);
    lemma_le_u32_round_trip(m.time_bits);
    lemma_le_i32_round_trip(m.ticks);
    lemma_le_i32_round_trip(m.frames);
    lemma_le_i32_round_trip(m.sign_on_length);
    lemma_field_read_back(e, 16, m.server_name);
    lemma_field_read_back(e, 276, m.client_name);
    lemma_field_read_back(e, 536, m.map_name);
    lemma_field_read_back(e, 796, m.game_dir);
    assert(spec_decode(e) matches Ok(r) && r == m);
}

/// A buffer that differs from the identifier in any one of its first eight
/// bytes is rejected as not a demo, whatever else it holds.
pub proof fn lemma_bad_magic(b: Seq<u8>, i: int)
    requires
        b.len() >= DEMO_HEADER_BYTES_LEN,
        0 <= i < 8,
        b[i] != demo_magic()[i],
    ensures
        spec_decode(b) == Err::<HeaderModel, DecodeError>(DecodeError::BadMagic),
{
    assert(b.subrange(0, 8)[i] != demo_magic()[i]);
}

/// A header with the identifier but another protocol version is rejected as
/// unsupported, whatever its other fields hold.
pub proof fn lemma_unsupported_protocol(b: Seq<u8>)
    requires
        b.len() >= DEMO_HEADER_BYTES_LEN,
        b.subrange(0, 8) == demo_magic(),
        le_i32_at(b, DEMO_PROTOCOL_AT as int) != DEMO_PROTOCOL,
    ensures
        spec_decode(b) == Err::<HeaderModel, DecodeError>(DecodeError::UnsupportedProtocol),
{
}

/// A buffer shorter than a header is rejected as truncated.
pub proof fn lemma_short_buffer(b: Seq<u8>)
    requires
        b.len() < DEMO_HEADER_BYTES_LEN,
    ensures
        spec_decode(b) == Err::<HeaderModel, DecodeError>(DecodeError::Truncated),
{
}

} // verus!
