use vstd::prelude::*;

verus! {

/// Every way in which decoding a demo file can fail.
#[derive(Clone, Copy, Debug, PartialEq, Eq, Structural)]
pub enum DecodeError {
    /// The first eight bytes are not the demo identifier.
    BadMagic,
    /// The header names a demo protocol other than the supported one.
    UnsupportedProtocol,
    /// The buffer ends before a fixed-size part or a declared payload does.
    Truncated,
    /// A text field of the header is not valid UTF-8.
    InvalidString,
    /// A message tag outside the known set of commands.
    UnknownCommand,
    /// The message stream ended without a stop marker.
    UnexpectedEof,
}

} // verus!
