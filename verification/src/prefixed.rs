//! The length-prefixed tagged frame.
//!
//! A frame is a run of fields, each a length byte and then that many bytes,
//! with `\r\n` behind the last. The fields come in a fixed order: the sender
//! where the frame is inbound, the content, the name of the tag, and the
//! four channels of its colour. A channel's text that is longer than four
//! bytes is cut to its first four. A message without a tag travels with the
//! tag named `undefined`; the room index does not travel, so what is read
//! has room index 0, for want of one.

use crate::color::{
    is_decimal, lemma_truncated_is_decimal, truncated, Channel, Color, ColorView, CHANNEL_WIDTH,
};
use crate::errors::{decoded_view, encoded_view, DecodeError, EncodeError};
use crate::message::{Message, MessageView, Shape, Tag, TagView};
use crate::text::{
    append_bytes, append_crlf, copy_range, crlf, crlf_at, text_from_bytes, wire_bytes, CR, LF,
};
use vstd::prelude::*;
use vstd::utf8::{decode_utf8, valid_utf8};

verus! {

/// The most bytes that a field can hold.
pub const FIELD_LIMIT: usize = 255;

/// A field: the length of `bytes` in one byte, then `bytes`.
pub open spec fn field(bytes: Seq<u8>) -> Seq<u8>
    recommends
        bytes.len() <= FIELD_LIMIT,
{
    seq![bytes.len() as u8] + bytes
}

/// Whether a whole field stands in `buf` at `pos`: a length byte, and behind
/// it at least as many bytes as it announces.
pub open spec fn has_field(buf: Seq<u8>, pos: int) -> bool {
    0 <= pos < buf.len() && pos + 1 + buf[pos] <= buf.len()
}

/// Where the field that begins at `pos` ends.
pub open spec fn field_end(buf: Seq<u8>, pos: int) -> int {
    pos + 1 + buf[pos]
}

/// The bytes of the field that begins at `pos`, without its length byte.
pub open spec fn field_at(buf: Seq<u8>, pos: int) -> Seq<u8> {
    buf.subrange(pos + 1, field_end(buf, pos))
}

/// The tag that travels with a message: its own, or the one named
/// `undefined`.
pub open spec fn tag_or_undefined(tag: Option<TagView>) -> TagView {
    match tag {
        Some(t) => t,
        None => TagView::undefined(),
    }
}

/// The fields of a frame, each without its length byte. An outbound frame
/// has no sender field; there `sender` is empty.
pub struct Fields {
    pub sender: Seq<u8>,
    pub content: Seq<u8>,
    pub name: Seq<u8>,
    pub color: ColorView,
}

/// The fields that carry `m`: its texts, the name of its tag, and the four
/// channels, each cut to the width of a frame.
pub open spec fn fields_of(m: MessageView) -> Fields {
    let tag = tag_or_undefined(m.tag());
    Fields {
        sender: match m {
            MessageView::Outbound { .. } => Seq::empty(),
            MessageView::Inbound { sender, .. } => wire_bytes(sender),
        },
        content: wire_bytes(m.content()),
        name: wire_bytes(tag.name),
        color: tag.color.truncated(),
    }
}

/// The fields that every frame has, one behind the other: content, tag
/// name, red, green, blue, alpha.
pub open spec fn body_of(fields: Fields) -> Seq<u8> {
    field(fields.content) + field(fields.name) + field(fields.color.red) + field(
        fields.color.green,
    ) + field(fields.color.blue) + field(fields.color.alpha)
}

/// The frame made of `fields`.
pub open spec fn join(shape: Shape, fields: Fields) -> Seq<u8> {
    match shape {
        Shape::Outbound => body_of(fields) + crlf(),
        Shape::Inbound => field(fields.sender) + body_of(fields) + crlf(),
    }
}

/// Whether every text of `m` fits a field.
pub open spec fn fits(m: MessageView) -> bool {
    &&& fields_of(m).sender.len() <= FIELD_LIMIT
    &&& fields_of(m).content.len() <= FIELD_LIMIT
    &&& fields_of(m).name.len() <= FIELD_LIMIT
}

/// The frame that carries `m`, or why there is none.
pub open spec fn frame_of(m: MessageView) -> Result<Seq<u8>, EncodeError> {
    if fits(m) {
        Ok(join(m.shape(), fields_of(m)))
    } else {
        Err(EncodeError::FieldTooLong)
    }
}

/// The fields that `frame` is made of, or why it cannot be taken apart.
pub open spec fn split(shape: Shape, frame: Seq<u8>) -> Result<Fields, DecodeError> {
    let inbound = shape is Inbound;
    let at0 = if inbound {
        field_end(frame, 0)
    } else {
        0
    };
    let at1 = field_end(frame, at0);
    let at2 = field_end(frame, at1);
    let at3 = field_end(frame, at2);
    let at4 = field_end(frame, at3);
    let at5 = field_end(frame, at4);
    let at6 = field_end(frame, at5);
    if !((inbound ==> has_field(frame, 0)) && has_field(frame, at0) && has_field(frame, at1)
        && has_field(frame, at2) && has_field(frame, at3) && has_field(frame, at4) && has_field(
        frame,
        at5,
    )) {
        Err(DecodeError::Truncated)
    } else if frame.subrange(at6, frame.len() as int) != crlf() {
        Err(DecodeError::Unterminated)
    } else {
        Ok(
            Fields {
                sender: if inbound {
                    field_at(frame, 0)
                } else {
                    Seq::empty()
                },
                content: field_at(frame, at0),
                name: field_at(frame, at1),
                color: ColorView {
                    red: field_at(frame, at2),
                    green: field_at(frame, at3),
                    blue: field_at(frame, at4),
                    alpha: field_at(frame, at5),
                },
            },
        )
    }
}

/// How many fields a frame of the given shape has.
pub open spec fn field_count(shape: Shape) -> nat {
    match shape {
        Shape::Outbound => 6,
        Shape::Inbound => 7,
    }
}

/// The place behind `count` fields that follow one another from `pos`, if
/// all of them stand whole in `buf`.
pub open spec fn fields_end(buf: Seq<u8>, pos: int, count: nat) -> Option<int>
    decreases count,
{
    if count == 0 {
        Some(pos)
    } else if has_field(buf, pos) {
        fields_end(buf, field_end(buf, pos), (count - 1) as nat)
    } else {
        None
    }
}

/// The length of the frame that `buf` begins with: its fields, one behind
/// the other, and the `\r\n` behind the last. There is none where a field
/// or the `\r\n` is missing.
pub open spec fn frame_len(shape: Shape, buf: Seq<u8>) -> Option<int> {
    match fields_end(buf, 0, field_count(shape)) {
        Some(end) => if crlf_at(buf, end) {
            Some(end + 2)
        } else {
            None
        },
        None => None,
    }
}

/// The message that `fields` spell, or why they spell none.
pub open spec fn message_of(shape: Shape, fields: Fields) -> Result<MessageView, DecodeError> {
    if !(valid_utf8(fields.sender) && valid_utf8(fields.content) && valid_utf8(fields.name)) {
        Err(DecodeError::BadText)
    } else if !fields.color.is_decimal() {
        Err(DecodeError::BadChannel)
    } else {
        let tag = Some(TagView { name: decode_utf8(fields.name), color: fields.color });
        match shape {
            Shape::Outbound => Ok(
                MessageView::Outbound { content: decode_utf8(fields.content), room: 0, tag },
            ),
            Shape::Inbound => Ok(
                MessageView::Inbound {
                    sender: decode_utf8(fields.sender),
                    content: decode_utf8(fields.content),
                    room: 0,
                    tag,
                },
            ),
        }
    }
}

/// The message of the given shape that `frame` carries, or why it carries
/// none.
pub open spec fn parse(shape: Shape, frame: Seq<u8>) -> Result<MessageView, DecodeError> {
    match split(shape, frame) {
        Ok(fields) => message_of(shape, fields),
        Err(e) => Err(e),
    }
}

/// What a frame keeps of `m`: its texts, its tag with the colour cut to the
/// width of a frame, and no room index.
pub open spec fn carried(m: MessageView) -> MessageView {
    let tag = Some(tag_or_undefined(m.tag()).truncated());
    match m {
        MessageView::Outbound { content, .. } => MessageView::Outbound { content, room: 0, tag },
        MessageView::Inbound { sender, content, .. } => MessageView::Inbound {
            sender,
            content,
            room: 0,
            tag,
        },
    }
}

/// Whether a frame carries all of `m`, so that reading the frame gives `m`
/// back: its texts fit their fields, it has a tag whose channels are decimal
/// texts of at most four bytes, and it belongs to room 0.
pub open spec fn is_valid(m: MessageView) -> bool {
    &&& fits(m)
    &&& m.room() == 0
    &&& m.tag() matches Some(t) && t.color.is_decimal() && t.color.fits()
}

/// Where what stands in `buf` from `pos` on is a field and a rest, the field
/// is found at `pos`, and the rest stands behind it.
proof fn lemma_field_first(buf: Seq<u8>, pos: int, bytes: Seq<u8>, rest: Seq<u8>)
    requires
        0 <= pos <= buf.len(),
        bytes.len() <= FIELD_LIMIT,
        buf.subrange(pos, buf.len() as int) == field(bytes) + rest,
    ensures
        has_field(buf, pos),
        field_at(buf, pos) == bytes,
        field_end(buf, pos) == pos + 1 + bytes.len(),
        field_end(buf, pos) <= buf.len(),
        buf.subrange(field_end(buf, pos), buf.len() as int) == rest,
{
    let tail = buf.subrange(pos, buf.len() as int);
    assert(tail.len() == 1 + bytes.len() + rest.len());
    assert(buf[pos] == tail[0]);
    assert(tail[0] == field(bytes)[0]);
    assert forall|i: int| 0 <= i < bytes.len() implies buf[pos + 1 + i] == bytes[i] by {
        assert(buf[pos + 1 + i] == tail[1 + i]);
        assert(tail[1 + i] == field(bytes)[1 + i]);
    }
    assert(field_at(buf, pos) =~= bytes);
    assert forall|i: int| 0 <= i < rest.len() implies buf[pos + 1 + bytes.len() + i] == rest[i] by {
        assert(buf[pos + 1 + bytes.len() + i] == tail[1 + bytes.len() + i]);
    }
    assert(buf.subrange(field_end(buf, pos), buf.len() as int) =~= rest);
}

/// Truncation: the field of a channel whose text is longer than four bytes
/// is the length byte 4 and the first four bytes of the text.
pub proof fn lemma_channel_field(text: Seq<u8>)
    requires
        text.len() > CHANNEL_WIDTH,
    ensures
        field(truncated(text)).len() == 5,
        field(truncated(text))[0] == 4,
        field(truncated(text)).subrange(1, 5) == text.subrange(0, 4),
{
    assert(field(truncated(text)).subrange(1, 5) =~= text.subrange(0, 4));
}

/// Three runs of bytes, one behind the other, are the same however they are
/// put together.
proof fn lemma_assoc(a: Seq<u8>, b: Seq<u8>, c: Seq<u8>)
    ensures
        (a + b) + c == a + (b + c),
{
    assert((a + b) + c =~= a + (b + c));
}

/// The frame that was made of some fields, with `rest` behind it, read as
/// one field behind the other from the start.
pub open spec fn unfolded(shape: Shape, fields: Fields, rest: Seq<u8>) -> Seq<u8> {
    let body = field(fields.content) + (field(fields.name) + (field(fields.color.red) + (field(
        fields.color.green,
    ) + (field(fields.color.blue) + (field(fields.color.alpha) + (crlf() + rest))))));
    match shape {
        Shape::Outbound => body,
        Shape::Inbound => field(fields.sender) + body,
    }
}

/// A frame with `rest` behind it is its fields, one behind the other, then
/// `\r\n` and `rest`.
proof fn lemma_unfolded(shape: Shape, fields: Fields, rest: Seq<u8>)
    ensures
        join(shape, fields) + rest == unfolded(shape, fields, rest),
{
    let f0 = field(fields.content);
    let f1 = field(fields.name);
    let f2 = field(fields.color.red);
    let f3 = field(fields.color.green);
    let f4 = field(fields.color.blue);
    let f5 = field(fields.color.alpha);
    let tail = crlf() + rest;
    lemma_assoc(f0 + f1 + f2 + f3 + f4, f5, tail);
    lemma_assoc(f0 + f1 + f2 + f3, f4, f5 + tail);
    lemma_assoc(f0 + f1 + f2, f3, f4 + (f5 + tail));
    lemma_assoc(f0 + f1, f2, f3 + (f4 + (f5 + tail)));
    lemma_assoc(f0, f1, f2 + (f3 + (f4 + (f5 + tail))));
    assert(body_of(fields) + tail == f0 + (f1 + (f2 + (f3 + (f4 + (f5 + tail))))));
    match shape {
        Shape::Outbound => {
            lemma_assoc(body_of(fields), crlf(), rest);
        },
        Shape::Inbound => {
            lemma_assoc(field(fields.sender) + body_of(fields), crlf(), rest);
            lemma_assoc(field(fields.sender), body_of(fields), tail);
        },
    }
}

/// Taking apart the frame that was made of some fields gives those fields
/// back.
#[verifier::rlimit(40)]
pub proof fn lemma_split_join(shape: Shape, fields: Fields)
    requires
        fields.sender.len() <= FIELD_LIMIT,
        fields.content.len() <= FIELD_LIMIT,
        fields.name.len() <= FIELD_LIMIT,
        fields.color.fits(),
        shape is Outbound ==> fields.sender == Seq::<u8>::empty(),
    ensures
        split(shape, join(shape, fields)) == Ok::<Fields, DecodeError>(fields),
{
    let f1 = field(fields.name);
    let f2 = field(fields.color.red);
    let f3 = field(fields.color.green);
    let f4 = field(fields.color.blue);
    let f5 = field(fields.color.alpha);
    let frame = join(shape, fields);
    let none = Seq::<u8>::empty();
    let tail = crlf() + none;
    lemma_unfolded(shape, fields, none);
    assert(frame + none == frame);
    assert(tail == crlf());
    assert(frame.subrange(0, frame.len() as int) == frame);
    let rest0 = f1 + (f2 + (f3 + (f4 + (f5 + tail))));
    let at0 = if shape is Inbound {
        lemma_field_first(frame, 0, fields.sender, field(fields.content) + rest0);
        field_end(frame, 0)
    } else {
        0
    };
    lemma_field_first(frame, at0, fields.content, rest0);
    let at1 = field_end(frame, at0);
    lemma_field_first(frame, at1, fields.name, f2 + (f3 + (f4 + (f5 + tail))));
    let at2 = field_end(frame, at1);
    lemma_field_first(frame, at2, fields.color.red, f3 + (f4 + (f5 + tail)));
    let at3 = field_end(frame, at2);
    lemma_field_first(frame, at3, fields.color.green, f4 + (f5 + tail));
    let at4 = field_end(frame, at3);
    lemma_field_first(frame, at4, fields.color.blue, f5 + tail);
    let at5 = field_end(frame, at4);
    lemma_field_first(frame, at5, fields.color.alpha, tail);
}

/// The fields that stand whole in `frame` stand as they are in `frame` with
/// `rest` behind it.
pub proof fn lemma_fields_end_prefix(frame: Seq<u8>, rest: Seq<u8>, pos: int, count: nat)
    requires
        fields_end(frame, pos, count) is Some,
    ensures
        fields_end(frame + rest, pos, count) == fields_end(frame, pos, count),
    decreases count,
{
    if count > 0 {
        assert((frame + rest)[pos] == frame[pos]);
        lemma_fields_end_prefix(frame, rest, field_end(frame, pos), (count - 1) as nat);
    }
}

/// A frame that can be taken apart is as long as its fields and the `\r\n`
/// behind them.
pub proof fn lemma_split_frame_len(shape: Shape, frame: Seq<u8>)
    requires
        split(shape, frame) is Ok,
    ensures
        fields_end(frame, 0, field_count(shape)) == Some(frame.len() - 2),
        frame_len(shape, frame) == Some(frame.len() as int),
{
    reveal_with_fuel(fields_end, 8);
    let end = fields_end(frame, 0, field_count(shape))->Some_0;
    let behind = frame.subrange(end, frame.len() as int);
    assert(behind == crlf());
    assert(behind.len() == 2);
    assert(frame[end] == behind[0] && frame[end + 1] == behind[1]);
}

/// A frame that was made of some fields is found at the start of whatever
/// it stands before, with its own length.
pub proof fn lemma_frame_len_join(shape: Shape, fields: Fields, rest: Seq<u8>)
    requires
        fields.sender.len() <= FIELD_LIMIT,
        fields.content.len() <= FIELD_LIMIT,
        fields.name.len() <= FIELD_LIMIT,
        fields.color.fits(),
        shape is Outbound ==> fields.sender == Seq::<u8>::empty(),
    ensures
        frame_len(shape, join(shape, fields) + rest) == Some(join(shape, fields).len() as int),
{
    let frame = join(shape, fields);
    lemma_split_join(shape, fields);
    lemma_split_frame_len(shape, frame);
    lemma_fields_end_prefix(frame, rest, 0, field_count(shape));
    let end = frame.len() - 2;
    assert((frame + rest)[end] == frame[end]);
    assert((frame + rest)[end + 1] == frame[end + 1]);
}

/// The fields that carry a message spell what a frame keeps of it, provided
/// that the channels of its tag are decimal texts.
pub proof fn lemma_message_of_fields(m: MessageView)
    requires
        tag_or_undefined(m.tag()).color.is_decimal(),
    ensures
        message_of(m.shape(), fields_of(m)) == Ok::<MessageView, DecodeError>(carried(m)),
        fields_of(m).color.fits(),
{
    broadcast use vstd::utf8::encode_utf8_valid_utf8, vstd::utf8::encode_utf8_decode_utf8;

    let tag = tag_or_undefined(m.tag());
    lemma_truncated_is_decimal(tag.color.red);
    lemma_truncated_is_decimal(tag.color.green);
    lemma_truncated_is_decimal(tag.color.blue);
    lemma_truncated_is_decimal(tag.color.alpha);
    assert(valid_utf8(Seq::<u8>::empty()));
}

/// Reading the frame that was written for a message gives back what a frame
/// keeps of it, whenever there is a frame and the channels of its tag are
/// decimal texts.
pub proof fn lemma_parse_frame(m: MessageView)
    requires
        fits(m),
        tag_or_undefined(m.tag()).color.is_decimal(),
    ensures
        frame_of(m) is Ok,
        parse(m.shape(), frame_of(m)->Ok_0) == Ok::<MessageView, DecodeError>(carried(m)),
{
    lemma_message_of_fields(m);
    lemma_split_join(m.shape(), fields_of(m));
}

/// Round trip: reading the frame that was written for a valid message gives
/// that message back.
pub proof fn lemma_round_trip(m: MessageView)
    requires
        is_valid(m),
    ensures
        frame_of(m) is Ok,
        parse(m.shape(), frame_of(m)->Ok_0) == Ok::<MessageView, DecodeError>(m),
{
    lemma_parse_frame(m);
    let tag = m.tag()->Some_0;
    assert(tag.color.truncated() == tag.color);
    assert(tag.truncated() == tag);
    assert(carried(m) == m);
}

/// Appends `bytes` as a field, unless they are too many for one.
pub fn append_field(out: &mut Vec<u8>, bytes: &[u8]) -> (ok: bool)
    ensures
        ok == (bytes@.len() <= FIELD_LIMIT),
        ok ==> final(out)@ == old(out)@ + field(bytes@),
        !ok ==> final(out)@ == old(out)@,
{
    if bytes.len() > FIELD_LIMIT {
        return false;
    }
    out.push(bytes.len() as u8);
    append_bytes(out, bytes);
    assert(out@ == old(out)@ + field(bytes@));
    true
}

/// Appends a channel as a field. A text of more than four bytes goes out
/// as its first four, under the length byte 4.
pub fn append_channel(out: &mut Vec<u8>, channel: &Channel)
    ensures
        final(out)@ == old(out)@ + field(truncated(channel@)),
        channel@.len() > CHANNEL_WIDTH ==> final(out)@ == old(out)@ + seq![4u8] + channel@.subrange(
            0,
            4,
        ),
{
    let text = channel.bytes();
    let kept: usize = if text.len() > CHANNEL_WIDTH {
        CHANNEL_WIDTH
    } else {
        text.len()
    };
    out.push(kept as u8);
    let cut = copy_range(text, 0, kept);
    assert(cut@ == truncated(channel@));
    append_bytes(out, cut.as_slice());
    assert(out@ == old(out)@ + field(truncated(channel@)));
}

/// Appends the fields that every frame has.
fn append_body(out: &mut Vec<u8>, content: &str, tag: &Tag) -> (ok: bool)
    ensures
        ok == (wire_bytes(content@).len() <= FIELD_LIMIT && wire_bytes(tag@.name).len()
            <= FIELD_LIMIT),
        ok ==> final(out)@ == old(out)@ + field(wire_bytes(content@)) + field(
            wire_bytes(tag@.name),
        ) + field(truncated(tag@.color.red)) + field(truncated(tag@.color.green)) + field(
            truncated(tag@.color.blue),
        ) + field(truncated(tag@.color.alpha)),
{
    if !append_field(out, content.as_bytes()) {
        return false;
    }
    if !append_field(out, tag.name.as_str().as_bytes()) {
        return false;
    }
    append_channel(out, &tag.color.red);
    append_channel(out, &tag.color.green);
    append_channel(out, &tag.color.blue);
    append_channel(out, &tag.color.alpha);
    true
}

/// Writes the frame that carries `m`.
pub fn encode(m: &Message) -> (r: Result<Vec<u8>, EncodeError>)
    ensures
        encoded_view(r) == frame_of(m@),
{
    let mut out: Vec<u8> = Vec::new();
    if let Message::Inbound { sender, .. } = m {
        if !append_field(&mut out, sender.as_str().as_bytes()) {
            return Err(EncodeError::FieldTooLong);
        }
    }
    let ghost head = out@;
    let ok = match m.tag() {
        Some(tag) => append_body(&mut out, m.content().as_str(), tag),
        None => {
            let tag = Tag::default();
            append_body(&mut out, m.content().as_str(), &tag)
        },
    };
    if !ok {
        return Err(EncodeError::FieldTooLong);
    }
    append_crlf(&mut out);
    assert(out@ =~= join(m@.shape(), fields_of(m@)));
    Ok(out)
}

/// Reads the field that begins at `pos`: its bytes, and the place behind
/// it. There is none where no length byte stands at `pos`, or where it
/// announces more bytes than `buf` holds behind it; a field that is read
/// never reaches past the end of `buf`.
pub fn read_field(buf: &[u8], pos: usize) -> (r: Option<(Vec<u8>, usize)>)
    ensures
        r is Some <==> has_field(buf@, pos as int),
        r matches Some((bytes, next)) ==> bytes@ == field_at(buf@, pos as int) && next
            == field_end(buf@, pos as int) && next <= buf@.len(),
{
    if pos >= buf.len() {
        return None;
    }
    let announced: usize = buf[pos] as usize;
    if announced > buf.len() - pos - 1 {
        return None;
    }
    let next: usize = pos + 1 + announced;
    Some((copy_range(buf, pos + 1, next), next))
}

/// Finds the place behind the field that begins at `pos`, if a whole field
/// stands there.
pub fn skip_field(buf: &[u8], pos: usize) -> (r: Option<usize>)
    ensures
        r is Some <==> has_field(buf@, pos as int),
        r matches Some(next) ==> next == field_end(buf@, pos as int) && next <= buf@.len(),
{
    if pos >= buf.len() {
        return None;
    }
    let announced: usize = buf[pos] as usize;
    if announced > buf.len() - pos - 1 {
        return None;
    }
    Some(pos + 1 + announced)
}

/// Finds the length of the frame that `buf` begins with.
pub fn frame_end(shape: Shape, buf: &[u8]) -> (r: Option<usize>)
    ensures
        r matches Some(n) ==> frame_len(shape, buf@) == Some(n as int) && 2 <= n <= buf@.len(),
        r is None ==> frame_len(shape, buf@) is None,
{
    let count: usize = match shape {
        Shape::Outbound => 6,
        Shape::Inbound => 7,
    };
    let mut pos: usize = 0;
    let mut k: usize = 0;
    while k < count
        invariant
            k <= count,
            count == field_count(shape),
            pos <= buf@.len(),
            fields_end(buf@, 0, count as nat) == fields_end(buf@, pos as int, (count - k) as nat),
        decreases count - k,
    {
        match skip_field(buf, pos) {
            Some(next) => {
                pos = next;
            },
            None => {
                return None;
            },
        }
        k += 1;
    }
    if buf.len() - pos < 2 || buf[pos] != CR || buf[pos + 1] != LF {
        return None;
    }
    Some(pos + 2)
}

/// Reads the message of the given shape that `frame` carries.
pub fn decode(shape: Shape, frame: &[u8]) -> (r: Result<Message, DecodeError>)
    ensures
        decoded_view(r) == parse(shape, frame@),
{
    let (sender_bytes, at0): (Vec<u8>, usize) = match shape {
        Shape::Inbound => match read_field(frame, 0) {
            Some(read) => read,
            None => {
                return Err(DecodeError::Truncated);
            },
        },
        Shape::Outbound => (Vec::new(), 0),
    };
    let (content_bytes, at1) = match read_field(frame, at0) {
        Some(read) => read,
        None => {
            return Err(DecodeError::Truncated);
        },
    };
    let (name_bytes, at2) = match read_field(frame, at1) {
        Some(read) => read,
        None => {
            return Err(DecodeError::Truncated);
        },
    };
    let (red_bytes, at3) = match read_field(frame, at2) {
        Some(read) => read,
        None => {
            return Err(DecodeError::Truncated);
        },
    };
    let (green_bytes, at4) = match read_field(frame, at3) {
        Some(read) => read,
        None => {
            return Err(DecodeError::Truncated);
        },
    };
    let (blue_bytes, at5) = match read_field(frame, at4) {
        Some(read) => read,
        None => {
            return Err(DecodeError::Truncated);
        },
    };
    let (alpha_bytes, at6) = match read_field(frame, at5) {
        Some(read) => read,
        None => {
            return Err(DecodeError::Truncated);
        },
    };
    if frame.len() - at6 != 2 || frame[at6] != CR || frame[at6 + 1] != LF {
        proof {
            let rest = frame@.subrange(at6 as int, frame@.len() as int);
            if rest == crlf() {
                assert(rest.len() == 2);
                assert(rest[0] == CR && rest[1] == LF);
            }
        }
        return Err(DecodeError::Unterminated);
    }
    assert(frame@.subrange(at6 as int, frame@.len() as int) == crlf());
    let sender_text = match shape {
        Shape::Inbound => text_from_bytes(sender_bytes),
        Shape::Outbound => Some(String::new()),
    };
    let content_text = text_from_bytes(content_bytes);
    let name_text = text_from_bytes(name_bytes);
    let (sender, content, name) = match (sender_text, content_text, name_text) {
        (Some(sender), Some(content), Some(name)) => (sender, content, name),
        _ => {
            return Err(DecodeError::BadText);
        },
    };
    let red = Channel::new(red_bytes);
    let green = Channel::new(green_bytes);
    let blue = Channel::new(blue_bytes);
    let alpha = Channel::new(alpha_bytes);
    let color = match (red, green, blue, alpha) {
        (Some(red), Some(green), Some(blue), Some(alpha)) => Color { red, green, blue, alpha },
        _ => {
            return Err(DecodeError::BadChannel);
        },
    };
    let tag = Some(Tag { name, color });
    match shape {
        Shape::Inbound => Ok(Message::Inbound { sender, content, room: 0, tag }),
        Shape::Outbound => Ok(Message::Outbound { content, room: 0, tag }),
    }
}

} // verus!
