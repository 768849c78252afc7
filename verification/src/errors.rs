//! What can go wrong when a frame is written or read.

use crate::message::{Message, MessageView};
use vstd::prelude::*;

verus! {

/// Why a message cannot be written as a frame.
#[derive(Clone, Copy, Debug, PartialEq, Eq, Structural)]
pub enum EncodeError {
    /// A text is longer than the 255 bytes that a length byte can announce.
    FieldTooLong,
}

/// Why a frame holds no message.
#[derive(Clone, Copy, Debug, PartialEq, Eq, Structural)]
pub enum DecodeError {
    /// The frame does not end with `\r\n`.
    Unterminated,
    /// A `:` that should part two fields is absent.
    MissingDelimiter,
    /// The room index is not a number that an index can hold.
    BadRoomIndex,
    /// A length byte is missing, or announces more bytes than remain.
    Truncated,
    /// A text is not well-formed UTF-8.
    BadText,
    /// A colour channel is not a decimal text.
    BadChannel,
}

/// The model of what reading a frame gave.
pub open spec fn decoded_view(r: Result<Message, DecodeError>) -> Result<MessageView, DecodeError> {
    match r {
        Ok(m) => Ok(m@),
        Err(e) => Err(e),
    }
}

/// The model of the bytes that writing a frame gave.
pub open spec fn encoded_view(r: Result<Vec<u8>, EncodeError>) -> Result<Seq<u8>, EncodeError> {
    match r {
        Ok(bytes) => Ok(bytes@),
        Err(e) => Err(e),
    }
}

} // verus!
