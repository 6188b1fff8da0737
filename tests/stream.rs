use demo_inspect::header::DEMO_HEADER_BYTES_LEN;
use demo_inspect::stream::{read_stream, DemCommand, Frame, MessageStream};
use demo_inspect::{DecodeError, DemoHeader};

fn simple(tag: u8, tick: i32) -> Vec<u8> {
    let mut b = vec![tag];
    b.extend_from_slice(&tick.to_le_bytes());
    b
}

#[test]
fn sync_tick_then_stop() {
    let mut buf = simple(3, 5);
    buf.extend(simple(7, 6));
    let mut s = MessageStream::new(0);
    let first = s.next_record(&buf).unwrap().unwrap();
    assert_eq!(first.command, DemCommand::SyncTick);
    assert_eq!(first.tick, 5);
    assert_eq!(first.payload_len, 0);
    let second = s.next_record(&buf).unwrap().unwrap();
    assert_eq!(second.command, DemCommand::Stop);
    assert_eq!(second.tick, 6);
    assert!(s.next_record(&buf).is_none());
    assert!(s.next_record(&buf).is_none());
    let (records, err) = read_stream(&buf, 0);
    assert_eq!(records.len(), 2);
    assert_eq!(err, None);
}

#[test]
fn unknown_tag_after_records() {
    let mut buf = simple(3, 5);
    buf.extend(simple(3, 6));
    buf.push(9);
    buf.extend_from_slice(&[0, 0, 0, 0]);
    let mut s = MessageStream::new(0);
    assert_eq!(s.next_record(&buf).unwrap().unwrap().tick, 5);
    assert_eq!(s.next_record(&buf).unwrap().unwrap().tick, 6);
    assert_eq!(s.next_record(&buf).unwrap().unwrap_err(), DecodeError::UnknownCommand);
    assert!(s.next_record(&buf).is_none());
    let (records, err) = read_stream(&buf, 0);
    assert_eq!(records.len(), 2);
    assert_eq!(records[1].tick, 6);
    assert_eq!(err, Some(DecodeError::UnknownCommand));
}

#[test]
fn tag_zero_is_unknown() {
    let (records, err) = read_stream(&[0, 1, 2, 3, 4], 0);
    assert!(records.is_empty());
    assert_eq!(err, Some(DecodeError::UnknownCommand));
}

#[test]
fn packet_carries_frame_and_payload() {
    let mut buf = simple(2, 40);
    for v in [11i32, 12, 3] {
        buf.extend_from_slice(&v.to_le_bytes());
    }
    buf.extend_from_slice(&[0xA, 0xB, 0xC]);
    buf.extend(simple(7, 41));
    let (records, err) = read_stream(&buf, 0);
    assert_eq!(err, None);
    assert_eq!(records.len(), 2);
    let p = records[0];
    assert_eq!(p.command, DemCommand::Packet);
    assert_eq!(p.frame, Some(Frame { server: 11, client: 12, sub_packet_size: 3 }));
    assert_eq!(p.payload_start, 17);
    assert_eq!(p.payload_len, 3);
    assert_eq!(p.payload(&buf), &[0xA, 0xB, 0xC]);
    assert_eq!(records[1].payload_start, 25);
}

#[test]
fn sign_on_carries_frame() {
    let mut buf = simple(1, 0);
    for v in [1i32, 2, 0] {
        buf.extend_from_slice(&v.to_le_bytes());
    }
    buf.extend(simple(7, 1));
    let (records, err) = read_stream(&buf, 0);
    assert_eq!(err, None);
    assert_eq!(records[0].command, DemCommand::SignOn);
    assert_eq!(records[0].frame, Some(Frame { server: 1, client: 2, sub_packet_size: 0 }));
    assert_eq!(records[0].payload_len, 0);
}

#[test]
fn length_prefixed_commands() {
    let mut buf = Vec::new();
    for tag in [4u8, 5, 6, 8] {
        buf.extend(simple(tag, 7));
        buf.extend_from_slice(&2i32.to_le_bytes());
        buf.extend_from_slice(&[tag, tag]);
    }
    buf.extend(simple(7, 8));
    let (records, err) = read_stream(&buf, 0);
    assert_eq!(err, None);
    let kinds: Vec<DemCommand> = records.iter().map(|r| r.command).collect();
    assert_eq!(
        kinds,
        vec![
            DemCommand::ConsoleCmd,
            DemCommand::UserCmd,
            DemCommand::DataTables,
            DemCommand::StringTables,
            DemCommand::Stop
        ]
    );
    assert_eq!(records[0].payload_start, 9);
    assert_eq!(records[0].payload_len, 2);
    assert!(records[..4].iter().all(|r| r.frame.is_none()));
    assert_eq!(records[1].payload_start, 20);
    assert_eq!(records[3].payload(&buf), &[8, 8]);
    assert!(records[4].payload(&buf).is_empty());
}

#[test]
fn payload_past_end_is_truncated() {
    let mut buf = simple(4, 1);
    buf.extend_from_slice(&10i32.to_le_bytes());
    buf.extend_from_slice(&[1, 2, 3]);
    assert_eq!(read_stream(&buf, 0), (vec![], Some(DecodeError::Truncated)));
}

#[test]
fn negative_length_is_truncated() {
    let mut buf = simple(2, 1);
    for v in [0i32, 0, -1] {
        buf.extend_from_slice(&v.to_le_bytes());
    }
    assert_eq!(read_stream(&buf, 0).1, Some(DecodeError::Truncated));
}

#[test]
fn partial_tick_is_truncated() {
    assert_eq!(read_stream(&[3, 1, 0], 0).1, Some(DecodeError::Truncated));
}

#[test]
fn end_without_stop_is_unexpected_eof() {
    let mut buf = simple(3, 1);
    buf.extend(simple(3, 2));
    let (records, err) = read_stream(&buf, 0);
    assert_eq!(records.len(), 2);
    assert_eq!(err, Some(DecodeError::UnexpectedEof));
    assert_eq!(read_stream(&[], 0), (vec![], Some(DecodeError::UnexpectedEof)));
}

#[test]
fn bytes_after_stop_are_ignored() {
    let mut buf = simple(7, 3);
    buf.extend_from_slice(&[0xEE, 9, 9]);
    let (records, err) = read_stream(&buf, 0);
    assert_eq!(records.len(), 1);
    assert_eq!(err, None);
}

#[test]
fn command_tags_round_trip() {
    for tag in 1u8..=8 {
        assert_eq!(DemCommand::from_tag(tag).unwrap().tag(), tag);
    }
    assert_eq!(DemCommand::from_tag(7), Some(DemCommand::Stop));
    assert_eq!(DemCommand::from_tag(9), None);
    assert_eq!(DemCommand::from_tag(0), None);
}

#[test]
fn minimal_file_end_to_end() {
    let mut buf = b"HL2DEMO\0".to_vec();
    buf.extend_from_slice(&3i32.to_le_bytes());
    buf.extend_from_slice(&0i32.to_le_bytes());
    buf.extend_from_slice(&[0u8; 1040]);
    buf.extend_from_slice(&[0u8; 16]);
    assert_eq!(buf.len(), DEMO_HEADER_BYTES_LEN);
    buf.extend(simple(7, 0));
    let h = DemoHeader::read(&buf).unwrap();
    assert_eq!(h.server_name, "");
    assert_eq!(h.client_name, "");
    assert_eq!(h.map_name, "");
    assert_eq!(h.game_dir, "");
    let (records, err) = read_stream(&buf, DEMO_HEADER_BYTES_LEN);
    assert_eq!(err, None);
    assert_eq!(records.len(), 1);
    assert_eq!(records[0].command, DemCommand::Stop);
}
