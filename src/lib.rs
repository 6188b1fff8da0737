//! Decoding of recorded game replay ("demo") files: the fixed-layout file
//! header and the framing of the message stream that follows it.
pub mod error;
pub mod header;
pub mod stream;
pub mod wire;

pub use error::DecodeError;
pub use header::DemoHeader;
pub use stream::{DemCommand, Frame, MessageRecord, MessageStream};
