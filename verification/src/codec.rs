//! The wire codec: one of two frame formats, chosen once for a connection
//! and used in both directions.

use crate::delimited;
use crate::errors::{decoded_view, encoded_view, DecodeError, EncodeError};
use crate::message::{Message, MessageView, Shape};
use crate::prefixed;
use crate::text::{append_crlf, append_text, crlf, wire_bytes};
use vstd::prelude::*;

verus! {

/// A frame format.
#[derive(Clone, Copy, Debug, PartialEq, Eq, Structural)]
pub enum Codec {
    /// Delimited text frames. `rooms` says whether the peer speaks of rooms:
    /// whether an inbound frame has a room index behind its content.
    Delimited { rooms: bool },
    /// Length-prefixed frames that carry a tag.
    Prefixed,
}

/// The frame that announces the display name `name` to the peer: the name and
/// `\r\n`, the same in both formats.
pub open spec fn handshake_frame(name: Seq<char>) -> Seq<u8> {
    wire_bytes(name) + crlf()
}

impl Codec {
    /// The frame that carries `m`, or why there is none.
    pub open spec fn frame_of(self, m: MessageView) -> Result<Seq<u8>, EncodeError> {
        match self {
            Codec::Delimited { rooms } => Ok(delimited::frame_of(m, rooms)),
            Codec::Prefixed => prefixed::frame_of(m),
        }
    }

    /// The message of the given shape that `frame` carries, or why it
    /// carries none.
    pub open spec fn parse(self, shape: Shape, frame: Seq<u8>) -> Result<MessageView, DecodeError> {
        match self {
            Codec::Delimited { rooms } => delimited::parse(shape, frame, rooms),
            Codec::Prefixed => prefixed::parse(shape, frame),
        }
    }

    /// Whether an inbound frame carries a room index.
    pub open spec fn names_room(self) -> bool {
        self == (Codec::Delimited { rooms: true })
    }

    /// What a frame keeps of `m`.
    pub open spec fn carried(self, m: MessageView) -> MessageView {
        match self {
            Codec::Delimited { rooms } => delimited::carried(m, rooms),
            Codec::Prefixed => prefixed::carried(m),
        }
    }

    /// Whether the frame of `m` can be read: there is a frame, the fields in
    /// it can be told apart, and the channels of the tag are decimal texts.
    pub open spec fn is_legible(self, m: MessageView) -> bool {
        match self {
            Codec::Delimited { rooms } => delimited::separable(m, rooms),
            Codec::Prefixed => prefixed::fits(m) && prefixed::tag_or_undefined(
                m.tag(),
            ).color.is_decimal(),
        }
    }

    /// Whether a frame carries all of `m`, so that reading the frame gives
    /// `m` back.
    pub open spec fn is_valid(self, m: MessageView) -> bool {
        match self {
            Codec::Delimited { rooms } => delimited::is_valid(m, rooms),
            Codec::Prefixed => prefixed::is_valid(m),
        }
    }

    /// Reading the frame that was written for a message gives back what a
    /// frame keeps of it, in either format, provided the frame can be read.
    pub proof fn lemma_parse_frame(self, m: MessageView)
        requires
            self.is_legible(m),
        ensures
            self.frame_of(m) is Ok,
            self.parse(m.shape(), self.frame_of(m)->Ok_0) == Ok::<MessageView, DecodeError>(
                self.carried(m),
            ),
    {
        match self {
            Codec::Delimited { rooms } => delimited::lemma_parse_frame(m, rooms),
            Codec::Prefixed => prefixed::lemma_parse_frame(m),
        }
    }

    /// Round trip: reading the frame that was written for a valid message
    /// gives that message back, in either format.
    pub proof fn lemma_round_trip(self, m: MessageView)
        requires
            self.is_valid(m),
        ensures
            self.frame_of(m) is Ok,
            self.parse(m.shape(), self.frame_of(m)->Ok_0) == Ok::<MessageView, DecodeError>(m),
    {
        match self {
            Codec::Delimited { rooms } => delimited::lemma_round_trip(m, rooms),
            Codec::Prefixed => prefixed::lemma_round_trip(m),
        }
    }

    /// Decides whether an inbound frame carries a room index.
    pub fn has_room_index(&self) -> (r: bool)
        ensures
            r == self.names_room(),
    {
        match self {
            Codec::Delimited { rooms } => *rooms,
            Codec::Prefixed => false,
        }
    }

    /// Writes the frame that announces `name` to the peer.
    pub fn handshake(&self, name: &str) -> (frame: Vec<u8>)
        ensures
            frame@ == handshake_frame(name@),
    {
        let mut out: Vec<u8> = Vec::new();
        append_text(&mut out, name);
        append_crlf(&mut out);
        out
    }

    /// Writes the frame that carries `m`.
    pub fn encode(&self, m: &Message) -> (r: Result<Vec<u8>, EncodeError>)
        ensures
            encoded_view(r) == self.frame_of(m@),
    {
        match self {
            Codec::Delimited { rooms } => Ok(delimited::encode(m, *rooms)),
            Codec::Prefixed => prefixed::encode(m),
        }
    }

    /// Reads the message of the given shape that `frame` carries.
    pub fn decode(&self, shape: Shape, frame: &[u8]) -> (r: Result<Message, DecodeError>)
        ensures
            decoded_view(r) == self.parse(shape, frame@),
    {
        match self {
            Codec::Delimited { rooms } => delimited::decode(shape, frame, *rooms),
            Codec::Prefixed => prefixed::decode(shape, frame),
        }
    }
}

} // verus!
