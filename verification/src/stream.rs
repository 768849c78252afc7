//! Frames in a chunk of received bytes.
//!
//! One read from the peer may bring no frame, one, or several. A chunk is
//! taken apart from its start: a delimited frame ends with the first `\r\n`,
//! a length-prefixed frame where its fields and the `\r\n` behind them end.
//! A frame that carries no message is passed over. What stands behind the
//! last whole frame is dropped; nothing is kept for the next read.

use crate::codec::Codec;
use crate::delimited;
use crate::errors::DecodeError;
use crate::message::{views, Message, MessageView, Shape};
use crate::prefixed;
use crate::text::{find_crlf, first_crlf, lemma_first_crlf};
use vstd::prelude::*;
use vstd::slice::slice_subrange;

verus! {

/// The length of the inbound frame that `buf` begins with, if it begins with
/// a whole one.
pub open spec fn frame_len(codec: Codec, buf: Seq<u8>) -> Option<int> {
    match codec {
        Codec::Delimited { .. } => if first_crlf(buf) + 2 <= buf.len() {
            Some(first_crlf(buf) + 2)
        } else {
            None
        },
        Codec::Prefixed => prefixed::frame_len(Shape::Inbound, buf),
    }
}

/// The inbound messages that the frames of `buf` carry, in the order of
/// their frames.
#[verifier::opaque]
pub open spec fn messages_in(codec: Codec, buf: Seq<u8>) -> Seq<MessageView>
    decreases buf.len(),
{
    match frame_len(codec, buf) {
        Some(n) => if 0 < n <= buf.len() {
            let rest = messages_in(codec, buf.subrange(n, buf.len() as int));
            match codec.parse(Shape::Inbound, buf.subrange(0, n)) {
                Ok(m) => seq![m] + rest,
                Err(_) => rest,
            }
        } else {
            Seq::empty()
        },
        None => Seq::empty(),
    }
}

/// The frames of `messages`, one behind the other.
pub open spec fn stream_of(codec: Codec, messages: Seq<MessageView>) -> Seq<u8>
    decreases messages.len(),
{
    if messages.len() == 0 {
        Seq::empty()
    } else {
        codec.frame_of(messages[0])->Ok_0 + stream_of(codec, messages.drop_first())
    }
}

/// Whether `m` can be read back from a chunk that holds its frame among
/// others: it is inbound and valid, and where frames are delimited, none of
/// its texts holds a line feed.
pub open spec fn is_streamable(codec: Codec, m: MessageView) -> bool {
    &&& m is Inbound
    &&& codec.is_valid(m)
    &&& codec is Delimited ==> delimited::is_one_line(m)
}

/// The frame of a streamable message is found at the start of whatever it
/// stands before, with its own length.
pub proof fn lemma_first_frame(codec: Codec, m: MessageView, rest: Seq<u8>)
    requires
        is_streamable(codec, m),
    ensures
        codec.frame_of(m) is Ok,
        frame_len(codec, codec.frame_of(m)->Ok_0 + rest) == Some(
            codec.frame_of(m)->Ok_0.len() as int,
        ),
        codec.frame_of(m)->Ok_0.len() >= 2,
{
    match codec {
        Codec::Delimited { rooms } => {
            delimited::lemma_frame_is_first_line(m, rooms, rest);
            lemma_first_crlf(delimited::frame_of(m, rooms) + rest);
        },
        Codec::Prefixed => {
            prefixed::lemma_frame_len_join(Shape::Inbound, prefixed::fields_of(m), rest);
        },
    }
}

/// A chunk that begins with a frame that carries a message holds that
/// message, and then the messages of what stands behind the frame.
proof fn lemma_messages_in_step(codec: Codec, frame: Seq<u8>, rest: Seq<u8>, m: MessageView)
    requires
        frame.len() > 0,
        frame_len(codec, frame + rest) == Some(frame.len() as int),
        codec.parse(Shape::Inbound, frame) == Ok::<MessageView, DecodeError>(m),
    ensures
        messages_in(codec, frame + rest) == seq![m] + messages_in(codec, rest),
{
    reveal(messages_in);
    let chunk = frame + rest;
    assert(chunk.subrange(0, frame.len() as int) =~= frame);
    assert(chunk.subrange(frame.len() as int, chunk.len() as int) =~= rest);
}

/// Inbound ordering: a chunk that holds the frames of streamable messages,
/// one behind the other, is read as exactly those messages, in the order
/// of their frames.
#[verifier::rlimit(40)]
pub proof fn lemma_stream_round_trip(codec: Codec, messages: Seq<MessageView>)
    requires
        forall|i: int| 0 <= i < messages.len() ==> is_streamable(codec, #[trigger] messages[i]),
    ensures
        messages_in(codec, stream_of(codec, messages)) == messages,
    decreases messages.len(),
{
    if messages.len() == 0 {
        lemma_nothing_in_nothing(codec);
        assert(messages =~= Seq::<MessageView>::empty());
    } else {
        let first = messages[0];
        let others = messages.drop_first();
        assert(is_streamable(codec, first));
        assert forall|i: int| 0 <= i < others.len() implies is_streamable(
            codec,
            #[trigger] others[i],
        ) by {
            assert(others[i] == messages[i + 1]);
        }
        lemma_first_frame(codec, first, stream_of(codec, others));
        lemma_first_parse(codec, first);
        lemma_stream_round_trip(codec, others);
        lemma_messages_in_step(
            codec,
            codec.frame_of(first)->Ok_0,
            stream_of(codec, others),
            first,
        );
        assert(seq![first] + others =~= messages);
    }
}

/// The frame of a streamable message reads as that message.
proof fn lemma_first_parse(codec: Codec, m: MessageView)
    requires
        is_streamable(codec, m),
    ensures
        codec.parse(Shape::Inbound, codec.frame_of(m)->Ok_0) == Ok::<MessageView, DecodeError>(m),
{
    codec.lemma_round_trip(m);
}

/// An empty chunk holds no message.
proof fn lemma_nothing_in_nothing(codec: Codec)
    ensures
        messages_in(codec, Seq::<u8>::empty()) == Seq::<MessageView>::empty(),
{
    reveal(messages_in);
    match codec {
        Codec::Delimited { .. } => {},
        Codec::Prefixed => {
            assert(prefixed::frame_len(Shape::Inbound, Seq::<u8>::empty()) is None);
        },
    }
}

/// Finds the length of the inbound frame that `buf` begins with.
pub fn next_frame(codec: &Codec, buf: &[u8]) -> (r: Option<usize>)
    ensures
        r matches Some(n) ==> frame_len(*codec, buf@) == Some(n as int) && 2 <= n <= buf@.len(),
        r is None ==> frame_len(*codec, buf@) is None,
{
    match codec {
        Codec::Delimited { .. } => {
            let at: usize = find_crlf(buf);
            if at == buf.len() {
                None
            } else {
                Some(at + 2)
            }
        },
        Codec::Prefixed => prefixed::frame_end(Shape::Inbound, buf),
    }
}

/// Reads the inbound messages that the frames of `chunk` carry.
pub fn decode_chunk(codec: &Codec, chunk: &[u8]) -> (out: Vec<Message>)
    ensures
        views(out@) == messages_in(*codec, chunk@),
{
    reveal(messages_in);
    let n: usize = chunk.len();
    let mut out: Vec<Message> = Vec::new();
    let mut pos: usize = 0;
    assert(chunk@.subrange(0, n as int) == chunk@);
    assert(views(out@) + messages_in(*codec, chunk@) == messages_in(*codec, chunk@));
    loop
        invariant
            pos <= n,
            n == chunk@.len(),
            views(out@) + messages_in(*codec, chunk@.subrange(pos as int, n as int)) == messages_in(
                *codec,
                chunk@,
            ),
        ensures
            views(out@) == messages_in(*codec, chunk@),
        decreases n - pos,
    {
        reveal(messages_in);
        let rest = slice_subrange(chunk, pos, n);
        let len: usize = match next_frame(codec, rest) {
            Some(len) => len,
            None => {
                assert(views(out@) + Seq::<MessageView>::empty() == views(out@));
                break ;
            },
        };
        let frame = slice_subrange(rest, 0, len);
        let ghost before = views(out@);
        let ghost tail = messages_in(*codec, rest@.subrange(len as int, rest@.len() as int));
        assert(rest@.subrange(len as int, rest@.len() as int) == chunk@.subrange(
            pos + len,
            n as int,
        ));
        match codec.decode(Shape::Inbound, frame) {
            Ok(m) => {
                assert(messages_in(*codec, rest@) == seq![m@] + tail);
                out.push(m);
                assert(views(out@) == before.push(m@));
                assert(before.push(m@) + tail == before + (seq![m@] + tail));
            },
            Err(_) => {
                assert(messages_in(*codec, rest@) == tail);
            },
        }
        pos += len;
    }
    out
}

} // verus!
