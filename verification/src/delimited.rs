//! The delimited text frame.
//!
//! A frame is a line of fields parted by `:` and ended by `\r\n`. What is
//! written here goes out as `content:room`; the room index is what follows
//! the last `:`, so the content may hold any text. What comes in reads
//! `sender:content:room` where the peer speaks of rooms, and `sender:content`
//! where it does not; there the content is all that follows the first `:`,
//! and the message is read with room index 0, for want of one. A room index
//! is any number that an index can hold. A frame of this kind carries no
//! tag.

use crate::decimal::{append_decimal, decimal, lemma_decimal_parses, parse_index, read_index};
use crate::errors::{decoded_view, DecodeError};
use crate::message::{Message, MessageView, Shape};
use crate::color::is_digit;
use crate::text::{
    append_crlf, append_text, copy_range, crlf, find_byte, find_last_byte, first_at, first_crlf,
    holds, is_terminated, last_at, lemma_ascii_byte_in_text, lemma_first_at, lemma_first_at_is,
    lemma_first_crlf_behind, lemma_holds_concat, lemma_last_at, lemma_last_at_is, payload,
    text_from_bytes, wire_bytes, COLON, CR, LF,
};
use vstd::prelude::*;
use vstd::utf8::{decode_utf8, valid_utf8};

verus! {

/// The frame that carries `m`.
pub open spec fn frame_of(m: MessageView, rooms: bool) -> Seq<u8> {
    match m {
        MessageView::Outbound { content, room, .. } => wire_bytes(content) + seq![COLON]
            + decimal(room as nat) + crlf(),
        MessageView::Inbound { sender, content, room, .. } => if rooms {
            wire_bytes(sender) + seq![COLON] + wire_bytes(content) + seq![COLON] + decimal(
                room as nat,
            ) + crlf()
        } else {
            wire_bytes(sender) + seq![COLON] + wire_bytes(content) + crlf()
        },
    }
}

/// What follows the first `:` of `line`.
pub open spec fn after_colon(line: Seq<u8>) -> Seq<u8>
    recommends
        holds(line, COLON),
{
    line.subrange(first_at(line, COLON) + 1, line.len() as int)
}

/// What stands before the first `:` of `line`.
pub open spec fn before_colon(line: Seq<u8>) -> Seq<u8> {
    line.subrange(0, first_at(line, COLON))
}

/// The outbound message that `frame` carries: the content before the last
/// `:`, the room index behind it.
pub open spec fn parse_outbound(frame: Seq<u8>) -> Result<MessageView, DecodeError> {
    let line = payload(frame);
    let content = line.subrange(0, last_at(line, COLON));
    let index = line.subrange(last_at(line, COLON) + 1, line.len() as int);
    if !is_terminated(frame) {
        Err(DecodeError::Unterminated)
    } else if !holds(line, COLON) {
        Err(DecodeError::MissingDelimiter)
    } else if parse_index(index) is None {
        Err(DecodeError::BadRoomIndex)
    } else if !valid_utf8(content) {
        Err(DecodeError::BadText)
    } else {
        Ok(
            MessageView::Outbound {
                content: decode_utf8(content),
                room: parse_index(index)->Some_0,
                tag: None,
            },
        )
    }
}

/// The inbound message that `frame` carries.
pub open spec fn parse_inbound(frame: Seq<u8>, rooms: bool) -> Result<MessageView, DecodeError> {
    let line = payload(frame);
    let rest = after_colon(line);
    if !is_terminated(frame) {
        Err(DecodeError::Unterminated)
    } else if !holds(line, COLON) {
        Err(DecodeError::MissingDelimiter)
    } else if !rooms {
        if !valid_utf8(before_colon(line)) || !valid_utf8(rest) {
            Err(DecodeError::BadText)
        } else {
            Ok(
                MessageView::Inbound {
                    sender: decode_utf8(before_colon(line)),
                    content: decode_utf8(rest),
                    room: 0,
                    tag: None,
                },
            )
        }
    } else if !holds(rest, COLON) {
        Err(DecodeError::MissingDelimiter)
    } else if parse_index(after_colon(rest)) is None {
        Err(DecodeError::BadRoomIndex)
    } else if !valid_utf8(before_colon(line)) || !valid_utf8(before_colon(rest)) {
        Err(DecodeError::BadText)
    } else {
        Ok(
            MessageView::Inbound {
                sender: decode_utf8(before_colon(line)),
                content: decode_utf8(before_colon(rest)),
                room: parse_index(after_colon(rest))->Some_0,
                tag: None,
            },
        )
    }
}

/// The message of the given shape that `frame` carries.
pub open spec fn parse(shape: Shape, frame: Seq<u8>, rooms: bool) -> Result<
    MessageView,
    DecodeError,
> {
    match shape {
        Shape::Outbound => parse_outbound(frame),
        Shape::Inbound => parse_inbound(frame, rooms),
    }
}

/// What a frame keeps of `m`: no tag, and no room index where the peer
/// does not speak of rooms.
pub open spec fn carried(m: MessageView, rooms: bool) -> MessageView {
    match m {
        MessageView::Outbound { content, room, .. } => MessageView::Outbound {
            content,
            room,
            tag: None,
        },
        MessageView::Inbound { sender, content, room, .. } => MessageView::Inbound {
            sender,
            content,
            room: if rooms {
                room
            } else {
                0
            },
            tag: None,
        },
    }
}

/// Whether the fields of `m` can be told apart in its frame: an inbound
/// message has no `:` in a text that a `:` follows. The fields of an
/// outbound message can always be told apart.
pub open spec fn separable(m: MessageView, rooms: bool) -> bool {
    match m {
        MessageView::Outbound { .. } => true,
        MessageView::Inbound { sender, content, .. } => !sender.contains(':') && (rooms
            ==> !content.contains(':')),
    }
}

/// Whether a frame carries all of `m`, so that reading the frame gives `m`
/// back.
pub open spec fn is_valid(m: MessageView, rooms: bool) -> bool {
    separable(m, rooms) && carried(m, rooms) == m
}

/// A line made of a text without `:`, a `:` and a rest parts at that `:`.
pub proof fn lemma_parts(head: Seq<u8>, rest: Seq<u8>)
    requires
        !holds(head, COLON),
    ensures
        holds(head + seq![COLON] + rest, COLON),
        before_colon(head + seq![COLON] + rest) == head,
        after_colon(head + seq![COLON] + rest) == rest,
{
    let line = head + seq![COLON] + rest;
    assert(line[head.len() as int] == COLON);
    assert forall|k: int| 0 <= k < head.len() implies line[k] != COLON by {
        assert(line[k] == head[k]);
    }
    lemma_first_at_is(line, COLON, head.len() as int);
    lemma_first_at(line, COLON);
    assert(before_colon(line) =~= head);
    assert(after_colon(line) =~= rest);
}

/// A line with `\r\n` behind it is a terminated frame, and the line is its
/// payload.
pub proof fn lemma_terminated(line: Seq<u8>)
    ensures
        is_terminated(line + crlf()),
        payload(line + crlf()) == line,
{
    assert(payload(line + crlf()) =~= line);
}

/// Reading the frame that was written for a message gives back what a frame
/// keeps of it, provided that its fields can be told apart.
#[verifier::rlimit(40)]
pub proof fn lemma_parse_frame(m: MessageView, rooms: bool)
    requires
        separable(m, rooms),
    ensures
        parse(m.shape(), frame_of(m, rooms), rooms) == Ok::<MessageView, DecodeError>(
            carried(m, rooms),
        ),
{
    broadcast use vstd::utf8::encode_utf8_valid_utf8, vstd::utf8::encode_utf8_decode_utf8;

    assert(':' as u8 == COLON);
    lemma_ascii_byte_in_text(m.content(), ':');
    if let MessageView::Inbound { sender, .. } = m {
        lemma_ascii_byte_in_text(sender, ':');
    }
    match m {
        MessageView::Outbound { content, room, .. } => {
            let index = decimal(room as nat);
            let line = wire_bytes(content) + seq![COLON] + index;
            let at = wire_bytes(content).len() as int;
            lemma_terminated(line);
            lemma_decimal_parses(room);
            assert(line[at] == COLON);
            assert forall|k: int| at < k < line.len() implies line[k] != COLON by {
                assert(line[k] == index[k - at - 1]);
                assert(is_digit(index[k - at - 1]));
            }
            lemma_last_at_is(line, COLON, at);
            lemma_last_at(line, COLON);
            assert(line.subrange(0, at) =~= wire_bytes(content));
            assert(line.subrange(at + 1, line.len() as int) =~= index);
        },
        MessageView::Inbound { sender, content, room, .. } => {
            if rooms {
                let rest = wire_bytes(content) + seq![COLON] + decimal(room as nat);
                let line = wire_bytes(sender) + seq![COLON] + rest;
                assert(line =~= wire_bytes(sender) + seq![COLON] + wire_bytes(content) + seq![
                    COLON,
                ] + decimal(room as nat));
                lemma_terminated(line);
                lemma_parts(wire_bytes(sender), rest);
                lemma_parts(wire_bytes(content), decimal(room as nat));
                lemma_decimal_parses(room);
            } else {
                let line = wire_bytes(sender) + seq![COLON] + wire_bytes(content);
                lemma_terminated(line);
                lemma_parts(wire_bytes(sender), wire_bytes(content));
            }
        },
    }
}

/// Round trip: reading the frame that was written for a valid message gives
/// that message back.
pub proof fn lemma_round_trip(m: MessageView, rooms: bool)
    requires
        is_valid(m, rooms),
    ensures
        parse(m.shape(), frame_of(m, rooms), rooms) == Ok::<MessageView, DecodeError>(m),
{
    lemma_parse_frame(m, rooms);
}

/// Whether no text of `m` holds a line feed, so that the frame of `m` ends
/// with the first `\r\n` that it holds.
pub open spec fn is_one_line(m: MessageView) -> bool {
    match m {
        MessageView::Outbound { content, .. } => !content.contains('\n'),
        MessageView::Inbound { sender, content, .. } => !sender.contains('\n')
            && !content.contains('\n'),
    }
}

/// The frame of a message whose texts hold no line feed, with anything
/// behind it, ends with the first `\r\n` of the whole.
pub proof fn lemma_frame_is_first_line(m: MessageView, rooms: bool, rest: Seq<u8>)
    requires
        is_one_line(m),
    ensures
        first_crlf(frame_of(m, rooms) + rest) + 2 == frame_of(m, rooms).len(),
{
    let colon = seq![COLON];
    assert(!holds(colon, LF));
    assert('\n' as u8 == LF);
    lemma_ascii_byte_in_text(m.content(), '\n');
    if let MessageView::Inbound { sender, .. } = m {
        lemma_ascii_byte_in_text(sender, '\n');
    }
    let index = decimal(m.room() as nat);
    lemma_decimal_parses(m.room());
    assert(!holds(index, LF)) by {
        if holds(index, LF) {
            let i = choose|i: int| 0 <= i < index.len() && index[i] == LF;
            assert(is_digit(index[i]));
        }
    }
    match m {
        MessageView::Outbound { content, .. } => {
            let line = wire_bytes(content) + colon + index;
            lemma_holds_concat(wire_bytes(content), colon, LF);
            lemma_holds_concat(wire_bytes(content) + colon, index, LF);
            lemma_first_crlf_behind(line, rest);
        },
        MessageView::Inbound { sender, content, .. } => {
            let short = wire_bytes(sender) + colon + wire_bytes(content);
            lemma_holds_concat(wire_bytes(sender), colon, LF);
            lemma_holds_concat(wire_bytes(sender) + colon, wire_bytes(content), LF);
            if rooms {
                let line = short + colon + index;
                lemma_holds_concat(short, colon, LF);
                lemma_holds_concat(short + colon, index, LF);
                lemma_first_crlf_behind(line, rest);
            } else {
                lemma_first_crlf_behind(short, rest);
            }
        },
    }
}

/// Writes the frame that carries `m`.
pub fn encode(m: &Message, rooms: bool) -> (frame: Vec<u8>)
    ensures
        frame@ == frame_of(m@, rooms),
{
    let mut out: Vec<u8> = Vec::new();
    match m {
        Message::Outbound { content, room, .. } => {
            append_text(&mut out, content.as_str());
            out.push(COLON);
            append_decimal(&mut out, *room);
            append_crlf(&mut out);
            assert(out@ == frame_of(m@, rooms));
        },
        Message::Inbound { sender, content, room, .. } => {
            append_text(&mut out, sender.as_str());
            out.push(COLON);
            append_text(&mut out, content.as_str());
            if rooms {
                out.push(COLON);
                append_decimal(&mut out, *room);
            }
            append_crlf(&mut out);
            assert(out@ == frame_of(m@, rooms));
        },
    }
    out
}

/// Reads the outbound message that `frame` carries.
pub fn decode_outbound(frame: &[u8]) -> (r: Result<Message, DecodeError>)
    ensures
        decoded_view(r) == parse_outbound(frame@),
{
    let n: usize = frame.len();
    if n < 2 || frame[n - 2] != CR || frame[n - 1] != LF {
        return Err(DecodeError::Unterminated);
    }
    let end: usize = n - 2;
    let ghost line = payload(frame@);
    proof {
        lemma_last_at(line, COLON);
    }
    let last: usize = match find_last_byte(frame, COLON, end) {
        Some(last) => last,
        None => {
            return Err(DecodeError::MissingDelimiter);
        },
    };
    let index_text = copy_range(frame, last + 1, end);
    assert(index_text@ == line.subrange(last + 1, line.len() as int));
    let room: usize = match read_index(index_text.as_slice()) {
        Some(room) => room,
        None => {
            return Err(DecodeError::BadRoomIndex);
        },
    };
    let content_bytes = copy_range(frame, 0, last);
    assert(content_bytes@ == line.subrange(0, last as int));
    match text_from_bytes(content_bytes) {
        Some(content) => Ok(Message::Outbound { content, room, tag: None }),
        None => Err(DecodeError::BadText),
    }
}

/// Reads the inbound message that `frame` carries.
pub fn decode_inbound(frame: &[u8], rooms: bool) -> (r: Result<Message, DecodeError>)
    ensures
        decoded_view(r) == parse_inbound(frame@, rooms),
{
    let n: usize = frame.len();
    if n < 2 || frame[n - 2] != CR || frame[n - 1] != LF {
        return Err(DecodeError::Unterminated);
    }
    let end: usize = n - 2;
    let ghost line = payload(frame@);
    let ghost rest = after_colon(line);
    let first: usize = find_byte(frame, COLON, 0, end);
    proof {
        lemma_first_at(line, COLON);
    }
    if first == end {
        return Err(DecodeError::MissingDelimiter);
    }
    assert(rest == frame@.subrange(first + 1, end as int));
    let sender_bytes = copy_range(frame, 0, first);
    assert(sender_bytes@ == before_colon(line));
    if !rooms {
        let content_bytes = copy_range(frame, first + 1, end);
        let sender = match text_from_bytes(sender_bytes) {
            Some(sender) => sender,
            None => {
                return Err(DecodeError::BadText);
            },
        };
        return match text_from_bytes(content_bytes) {
            Some(content) => Ok(Message::Inbound { sender, content, room: 0, tag: None }),
            None => Err(DecodeError::BadText),
        };
    }
    let second: usize = find_byte(frame, COLON, first + 1, end);
    proof {
        lemma_first_at(rest, COLON);
    }
    if second == end {
        return Err(DecodeError::MissingDelimiter);
    }
    let index_text = copy_range(frame, second + 1, end);
    assert(index_text@ == after_colon(rest));
    let room: usize = match read_index(index_text.as_slice()) {
        Some(room) => room,
        None => {
            return Err(DecodeError::BadRoomIndex);
        },
    };
    let content_bytes = copy_range(frame, first + 1, second);
    assert(content_bytes@ == before_colon(rest));
    let sender = match text_from_bytes(sender_bytes) {
        Some(sender) => sender,
        None => {
            return Err(DecodeError::BadText);
        },
    };
    match text_from_bytes(content_bytes) {
        Some(content) => Ok(Message::Inbound { sender, content, room, tag: None }),
        None => Err(DecodeError::BadText),
    }
}

/// Reads the message of the given shape that `frame` carries.
pub fn decode(shape: Shape, frame: &[u8], rooms: bool) -> (r: Result<Message, DecodeError>)
    ensures
        decoded_view(r) == parse(shape, frame@, rooms),
{
    match shape {
        Shape::Outbound => decode_outbound(frame),
        Shape::Inbound => decode_inbound(frame, rooms),
    }
}

} // verus!
