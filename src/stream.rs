//! Framing of the message stream that follows the header.
use crate::error::DecodeError;
use crate::wire::{le_i32_at, read_i32_le};
use vstd::prelude::*;
use vstd::slice::slice_subrange;

verus! {

/// The type of one message of the stream, given by its tag byte.
#[derive(Clone, Copy, Debug, PartialEq, Eq, Structural)]
pub enum DemCommand {
    /// A startup message (tag 1).
    SignOn,
    /// A normal network packet (tag 2).
    Packet,
    /// Syncs the client clock to the demo tick (tag 3).
    SyncTick,
    /// A console command (tag 4).
    ConsoleCmd,
    /// A user input command (tag 5).
    UserCmd,
    /// Network data tables (tag 6).
    DataTables,
    /// The end of the stream (tag 7).
    Stop,
    /// String tables (tag 8).
    StringTables,
}

/// The command that a tag byte names, if any.
pub open spec fn command_of_tag(tag: u8) -> Option<DemCommand> {
    if tag == 1 {
        Some(DemCommand::SignOn)
    } else if tag == 2 {
        Some(DemCommand::Packet)
    } else if tag == 3 {
        Some(DemCommand::SyncTick)
    } else if tag == 4 {
        Some(DemCommand::ConsoleCmd)
    } else if tag == 5 {
        Some(DemCommand::UserCmd)
    } else if tag == 6 {
        Some(DemCommand::DataTables)
    } else if tag == 7 {
        Some(DemCommand::Stop)
    } else if tag == 8 {
        Some(DemCommand::StringTables)
    } else {
        None
    }
}

impl DemCommand {
    /// The command that `tag` names; `None` outside the known set.
    pub fn from_tag(tag: u8) -> (r: Option<DemCommand>)
        ensures
            r == command_of_tag(tag),
    {
        match tag {
            1 => Some(DemCommand::SignOn),
            2 => Some(DemCommand::Packet),
            3 => Some(DemCommand::SyncTick),
            4 => Some(DemCommand::ConsoleCmd),
            5 => Some(DemCommand::UserCmd),
            6 => Some(DemCommand::DataTables),
            7 => Some(DemCommand::Stop),
            8 => Some(DemCommand::StringTables),
            _ => None,
        }
    }

    /// The tag byte of this command.
    pub fn tag(&self) -> (r: u8)
        ensures
            command_of_tag(r) == Some(*self),
    {
        match self {
            DemCommand::SignOn => 1,
            DemCommand::Packet => 2,
            DemCommand::SyncTick => 3,
            DemCommand::ConsoleCmd => 4,
            DemCommand::UserCmd => 5,
            DemCommand::DataTables => 6,
            DemCommand::Stop => 7,
            DemCommand::StringTables => 8,
        }
    }
}

/// The envelope in front of the payload of a `SignOn` or `Packet` message.
#[derive(Clone, Copy, Debug, PartialEq, Eq)]
pub struct Frame {
    /// Server-side sequence number.
    pub server: i32,
    /// Client-side sequence number.
    pub client: i32,
    /// Length in bytes of the payload that follows the envelope.
    pub sub_packet_size: i32,
}

/// One framed message: its tick, its type, its envelope if it has one, and
/// where its payload lies in the buffer.
#[derive(Clone, Copy, Debug, PartialEq, Eq)]
pub struct MessageRecord {
    pub tick: i32,
    pub command: DemCommand,
    pub frame: Option<Frame>,
    /// Offset of the payload's first byte in the buffer.
    pub payload_start: usize,
    /// Length of the payload in bytes.
    pub payload_len: usize,
}

/// The offset just past a record's payload, where the next record starts.
pub open spec fn record_end(r: MessageRecord) -> int {
    r.payload_start + r.payload_len
}

impl MessageRecord {
    /// The record's payload: a view into the buffer it was framed from, not a copy.
    pub fn payload<'a>(&self, buf: &'a [u8]) -> (r: &'a [u8])
        requires
            record_end(*self) <= buf@.len(),
        ensures
            r@ == buf@.subrange(self.payload_start as int, record_end(*self)),
    {
        let len = buf.len();
        assert(self.payload_start + self.payload_len <= len);
        slice_subrange(buf, self.payload_start, self.payload_start + self.payload_len)
    }
}

/// A record whose payload of `len` bytes starts at `start`.
pub open spec fn spec_record(
    tick: i32,
    command: DemCommand,
    frame: Option<Frame>,
    start: int,
    len: int,
) -> MessageRecord {
    MessageRecord {
        tick,
        command,
        frame,
        payload_start: start as usize,
        payload_len: len as usize,
    }
}

/// What framing the one message at offset `pos` of `b` gives: a tag byte, a
/// four-byte tick, then by type nothing (`SyncTick`, `Stop`), a frame envelope
/// and its payload (`SignOn`, `Packet`), or a four-byte length and that many
/// bytes (the others).
pub open spec fn spec_step(b: Seq<u8>, pos: int) -> Result<MessageRecord, DecodeError> {
    if pos < 0 || pos >= b.len() {
        Err(DecodeError::UnexpectedEof)
    } else {
        match command_of_tag(b[pos]) {
            None => Err(DecodeError::UnknownCommand),
            Some(cmd) => {
                let body = pos + 5;
                if body > b.len() {
                    Err(DecodeError::Truncated)
                } else {
                    let tick = le_i32_at(b, pos + 1);
                    if cmd == DemCommand::SyncTick || cmd == DemCommand::Stop {
                        Ok(spec_record(tick, cmd, None, body, 0))
                    } else if cmd == DemCommand::SignOn || cmd == DemCommand::Packet {
                        if body + 12 > b.len() {
                            Err(DecodeError::Truncated)
                        } else {
                            let frame = Frame {
                                server: le_i32_at(b, body),
                                client: le_i32_at(b, body + 4),
                                sub_packet_size: le_i32_at(b, body + 8),
                            };
                            let size = frame.sub_packet_size as int;
                            if size < 0 || body + 12 + size > b.len() {
                                Err(DecodeError::Truncated)
                            } else {
                                Ok(spec_record(tick, cmd, Some(frame), body + 12, size))
                            }
                        }
                    } else if body + 4 > b.len() {
                        Err(DecodeError::Truncated)
                    } else {
                        let size = le_i32_at(b, body) as int;
                        if size < 0 || body + 4 + size > b.len() {
                            Err(DecodeError::Truncated)
                        } else {
                            Ok(spec_record(tick, cmd, None, body + 4, size))
                        }
                    }
                }
            },
        }
    }
}

/// A record that `spec_step` gives ends past its start and within the buffer.
pub proof fn lemma_step_advances(b: Seq<u8>, pos: int)
    requires
        b.len() <= usize::MAX,
        spec_step(b, pos) is Ok,
    ensures
        pos + 5 <= record_end(spec_step(b, pos)->Ok_0) <= b.len(),
        spec_step(b, pos)->Ok_0.payload_start >= pos + 5,
{
}

/// The records of the stream of `b` from `pos` in order, up to and including
/// the stop marker, and the error that ended it early, if one did.
pub open spec fn spec_walk(b: Seq<u8>, pos: int) -> (Seq<MessageRecord>, Option<DecodeError>)
    decreases b.len() - pos,
{
    if b.len() > usize::MAX {
        // no such buffer fits in memory
        (seq![], None)
    } else {
        match spec_step(b, pos) {
            Err(e) => (seq![], Some(e)),
            Ok(r) => if r.command == DemCommand::Stop {
                (seq![r], None)
            } else {
                let rest = spec_walk(b, record_end(r));
                (seq![r] + rest.0, rest.1)
            },
        }
    }
}

/// A forward-only cursor over the message stream of a buffer. It holds only
/// an offset; the buffer is handed to each step and never changed.
pub struct MessageStream {
    pos: usize,
    finished: bool,
}

impl MessageStream {
    /// The offset at which the next record starts.
    pub closed spec fn position(&self) -> int {
        self.pos as int
    }

    /// Whether the stream has ended, at a stop marker or an error.
    pub closed spec fn is_finished(&self) -> bool {
        self.finished
    }

    /// A stream whose first record starts at offset `start`.
    pub fn new(start: usize) -> (s: MessageStream)
        ensures
            s.position() == start,
            !s.is_finished(),
    {
        MessageStream { pos: start, finished: false }
    }

    /// Frames the next record. After a stop marker or an error every further
    /// call gives `None`; reaching the end of the buffer without a stop
    /// marker gives `UnexpectedEof`.
    pub fn next_record(&mut self, buf: &[u8]) -> (r: Option<Result<MessageRecord, DecodeError>>)
        ensures
            old(self).is_finished() ==> r is None && *final(self) == *old(self),
            !old(self).is_finished() ==> match spec_step(buf@, old(self).position()) {
                Ok(rec) => {
                    &&& r == Some(Ok::<MessageRecord, DecodeError>(rec))
                    &&& final(self).position() == record_end(rec)
                    &&& final(self).is_finished() == (rec.command == DemCommand::Stop)
                },
                Err(e) => {
                    &&& r == Some(Err::<MessageRecord, DecodeError>(e))
                    &&& final(self).position() == old(self).position()
                    &&& final(self).is_finished()
                },
            },
    {
        if self.finished {
            return None;
        }
        let len = buf.len();
        match frame_at(buf, self.pos) {
            Ok(rec) => {
                proof {
                    assert(len == buf@.len());
                    lemma_step_advances(buf@, self.pos as int);
                }
                self.pos = rec.payload_start + rec.payload_len;
                self.finished = match rec.command {
                    DemCommand::Stop => true,
                    _ => false,
                };
                Some(Ok(rec))
            },
            Err(e) => {
                self.finished = true;
                Some(Err(e))
            },
        }
    }
}

/// Frames the one record that starts at offset `pos` of `buf`.
pub fn frame_at(buf: &[u8], pos: usize) -> (r: Result<MessageRecord, DecodeError>)
    ensures
        r == spec_step(buf@, pos as int),
{
    let len = buf.len();
    if pos >= len {
        return Err(DecodeError::UnexpectedEof);
    }
    let cmd = match DemCommand::from_tag(buf[pos]) {
        Some(c) => c,
        None => return Err(DecodeError::UnknownCommand),
    };
    if len - pos < 5 {
        return Err(DecodeError::Truncated);
    }
    let tick = read_i32_le(buf, pos + 1);
    let body = pos + 5;
    match cmd {
        DemCommand::SyncTick | DemCommand::Stop => Ok(
            MessageRecord { tick, command: cmd, frame: None, payload_start: body, payload_len: 0 },
        ),
        DemCommand::SignOn | DemCommand::Packet => {
            if len - body < 12 {
                return Err(DecodeError::Truncated);
            }
            let frame = Frame {
                server: read_i32_le(buf, body),
                client: read_i32_le(buf, body + 4),
                sub_packet_size: read_i32_le(buf, body + 8),
            };
            let start = body + 12;
            if frame.sub_packet_size < 0 || (len - start) < frame.sub_packet_size as usize {
                return Err(DecodeError::Truncated);
            }
            Ok(
                MessageRecord {
                    tick,
                    command: cmd,
                    frame: Some(frame),
                    payload_start: start,
                    payload_len: frame.sub_packet_size as usize,
                },
            )
        },
        _ => {
            if len - body < 4 {
                return Err(DecodeError::Truncated);
            }
            let size = read_i32_le(buf, body);
            let start = body + 4;
            if size < 0 || (len - start) < size as usize {
                return Err(DecodeError::Truncated);
            }
            Ok(
                MessageRecord {
                    tick,
                    command: cmd,
                    frame: None,
                    payload_start: start,
                    payload_len: size as usize,
                },
            )
        },
    }
}

/// Frames the whole stream of `buf` from offset `start`: the records in
/// order, up to and including the stop marker, and the error that ended the
/// stream early, if one did.
pub fn read_stream(buf: &[u8], start: usize) -> (r: (Vec<MessageRecord>, Option<DecodeError>))
    ensures
        (r.0@, r.1) == spec_walk(buf@, start as int),
{
    let mut stream = MessageStream::new(start);
    let mut records: Vec<MessageRecord> = Vec::new();
    let mut error: Option<DecodeError> = None;
    let len = buf.len();
    loop
        invariant_except_break
            !stream.is_finished(),
            error is None,
            records@ + spec_walk(buf@, stream.position()).0 == spec_walk(buf@, start as int).0,
            spec_walk(buf@, stream.position()).1 == spec_walk(buf@, start as int).1,
        invariant
            len == buf@.len(),
        ensures
            (records@, error) == spec_walk(buf@, start as int),
        decreases buf@.len() - stream.position(),
    {
        let ghost at = stream.position();
        let ghost before = records@;
        match stream.next_record(buf) {
            Some(Ok(rec)) => {
                records.push(rec);
                if rec.command == DemCommand::Stop {
                    proof {
                        assert(spec_walk(buf@, at) == (seq![rec], None::<DecodeError>));
                        assert(records@ =~= spec_walk(buf@, start as int).0);
                    }
                    break;
                }
                proof {
                    lemma_step_advances(buf@, at);
                    assert(records@ + spec_walk(buf@, stream.position()).0 =~= spec_walk(
                        buf@,
                        start as int,
                    ).0);
                }
            },
            Some(Err(e)) => {
                error = Some(e);
                proof {
                    assert(spec_walk(buf@, at).0 =~= Seq::<MessageRecord>::empty());
                    assert(records@ =~= spec_walk(buf@, start as int).0);
                }
                break;
            },
            None => {
                break;
            },
        }
    }
    (records, error)
}

/// Framing a whole record only reads bytes inside it, so bytes appended
/// after the buffer do not change it.
pub proof fn lemma_step_prefix(b: Seq<u8>, ext: Seq<u8>, pos: int)
    requires
        ext.len() <= usize::MAX,
        b.len() <= ext.len(),
        ext.subrange(0, b.len() as int) == b,
        spec_step(b, pos) is Ok,
    ensures
        spec_step(ext, pos) == spec_step(b, pos),
{
    assert forall|i: int| 0 <= i < b.len() implies ext[i] == b[i] by {
        assert(ext.subrange(0, b.len() as int)[i] == ext[i]);
    }
}

/// Once the records of `pre` are framed to its very end, a byte after them
/// that is no known tag ends the stream of `pre + rest` with
/// `UnknownCommand` right there, and every record before it is framed as
/// it was in `pre`.
pub proof fn lemma_unknown_tag(pre: Seq<u8>, rest: Seq<u8>, start: int)
    requires
        0 <= start <= pre.len(),
        pre.len() + rest.len() <= usize::MAX,
        spec_walk(pre, start).1 == Some(DecodeError::UnexpectedEof),
        rest.len() > 0,
        command_of_tag(rest[0]) is None,
    ensures
        spec_walk(pre + rest, start) == (
            spec_walk(pre, start).0,
            Some(DecodeError::UnknownCommand),
        ),
    decreases pre.len() - start,
{
    let ext = pre + rest;
    if start == pre.len() {
        assert(ext[start] == rest[0]);
    } else {
        assert(spec_step(pre, start) is Ok);
        let r = spec_step(pre, start)->Ok_0;
        assert(ext.subrange(0, pre.len() as int) =~= pre);
        lemma_step_prefix(pre, ext, start);
        lemma_step_advances(pre, start);
        lemma_unknown_tag(pre, rest, record_end(r));
    }
}

} // verus!
