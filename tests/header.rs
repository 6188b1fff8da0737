use demo_inspect::header::{DEMO_HEADER_BYTES_LEN, DEMO_PROTOCOL};
use demo_inspect::{DecodeError, DemoHeader};

const MAGIC: &[u8] = b"HL2DEMO\0";

fn field(text: &[u8]) -> Vec<u8> {
    let mut f = text.to_vec();
    f.resize(260, 0);
    f
}

fn header_bytes(protocol: i32, names: [&[u8]; 4]) -> Vec<u8> {
    let mut b = MAGIC.to_vec();
    b.extend_from_slice(&protocol.to_le_bytes());
    b.extend_from_slice(&24i32.to_le_bytes());
    for n in names.iter() {
        b.extend_from_slice(&field(n));
    }
    b.extend_from_slice(&12.5f32.to_le_bytes());
    b.extend_from_slice(&640i32.to_le_bytes());
    b.extend_from_slice(&630i32.to_le_bytes());
    b.extend_from_slice(&(-2i32).to_le_bytes());
    b
}

fn sample() -> Vec<u8> {
    header_bytes(3, [b"srv", b"player", b"de_dust2", b"cstrike"])
}

#[test]
fn decodes_every_field() {
    let b = sample();
    assert_eq!(b.len(), DEMO_HEADER_BYTES_LEN);
    let h = DemoHeader::read(&b).unwrap();
    assert_eq!(h.demo_protocol, DEMO_PROTOCOL);
    assert_eq!(h.net_protocol, 24);
    assert_eq!(h.server_name, "srv");
    assert_eq!(h.client_name, "player");
    assert_eq!(h.map_name, "de_dust2");
    assert_eq!(h.game_dir, "cstrike");
    assert_eq!(f32::from_bits(h.time_bits), 12.5f32);
    assert_eq!(h.ticks, 640);
    assert_eq!(h.frames, 630);
    assert_eq!(h.sign_on_length, -2);
}

#[test]
fn reencoding_reproduces_header_bytes() {
    let b = sample();
    let h = DemoHeader::read(&b).unwrap();
    assert_eq!(h.to_bytes().unwrap(), b);
}

#[test]
fn reencoding_multibyte_text_round_trips() {
    let b = header_bytes(3, ["Ünïcödé ✓".as_bytes(), b"", b"cs_office", b"x"]);
    let h = DemoHeader::read(&b).unwrap();
    assert_eq!(h.server_name, "Ünïcödé ✓");
    assert_eq!(h.to_bytes().unwrap(), b);
}

#[test]
fn encoding_rejects_overlong_text() {
    let mut h = DemoHeader::read(&sample()).unwrap();
    h.game_dir = "a".repeat(261);
    assert!(h.to_bytes().is_none());
    h.game_dir = "a".repeat(260);
    let bytes = h.to_bytes().unwrap();
    assert_eq!(bytes.len(), DEMO_HEADER_BYTES_LEN);
    assert_eq!(DemoHeader::read(&bytes).unwrap().game_dir, "a".repeat(260));
}

#[test]
fn any_wrong_magic_byte_is_bad_magic() {
    for i in 0..8 {
        let mut b = sample();
        b[i] ^= 0x01;
        assert_eq!(DemoHeader::read(&b).unwrap_err(), DecodeError::BadMagic);
    }
}

#[test]
fn text_stops_at_first_null() {
    let mut map = b"de_dust2\0".to_vec();
    map.resize(260, 0xFF);
    let mut b = sample();
    b[536..796].copy_from_slice(&map);
    let h = DemoHeader::read(&b).unwrap();
    assert_eq!(h.map_name, "de_dust2");
}

#[test]
fn text_without_terminator_fills_field() {
    let b = header_bytes(3, [&[b'z'; 260], b"", b"", b""]);
    let h = DemoHeader::read(&b).unwrap();
    assert_eq!(h.server_name.len(), 260);
    assert_eq!(h.client_name, "");
}

#[test]
fn other_protocol_is_unsupported() {
    for p in [4, 2, 0, -1, i32::MAX] {
        let b = header_bytes(p, [b"srv", b"player", b"de_dust2", b"cstrike"]);
        assert_eq!(DemoHeader::read(&b).unwrap_err(), DecodeError::UnsupportedProtocol);
    }
}

#[test]
fn short_buffer_is_truncated() {
    let b = sample();
    for n in [0usize, 1, 7, 8, 100, 1071] {
        assert_eq!(DemoHeader::read(&b[..n]).unwrap_err(), DecodeError::Truncated);
    }
    assert_eq!(DemoHeader::read(b"garbage").unwrap_err(), DecodeError::Truncated);
}

#[test]
fn invalid_utf8_text_is_rejected() {
    let b = header_bytes(3, [b"srv", b"\xFF\xFEbad", b"map", b"dir"]);
    assert_eq!(DemoHeader::read(&b).unwrap_err(), DecodeError::InvalidString);
}

#[test]
fn trailing_bytes_after_header_are_ignored() {
    let mut b = sample();
    b.extend_from_slice(&[7, 1, 2, 3, 4, 0xAA]);
    assert_eq!(DemoHeader::read(&b).unwrap().map_name, "de_dust2");
}
