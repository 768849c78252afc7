//! The decisions of the connection worker.
//!
//! The worker owns the stream to the peer. It connects, announces the
//! display name, and then runs two loops side by side: one takes outbound
//! messages from the bridge and writes their frames, the other reads chunks
//! from the peer and hands the messages in them to the bridge. The loops
//! and the stream are the caller's. What this module holds is what the
//! worker decides: for each thing that happens, the state it moves to and
//! what is to be done next.

use crate::codec::{handshake_frame, Codec};
use crate::message::{views, Message, MessageView, Shape};
use crate::stream::{decode_chunk, messages_in};
use vstd::prelude::*;

verus! {

/// How many messages each of the two bridge queues holds.
pub const QUEUE_CAPACITY: usize = 1024;

/// Where the worker stands.
#[derive(Clone, Copy, Debug, PartialEq, Eq, Structural)]
pub enum WorkerState {
    /// The stream to the peer is being opened.
    Connecting,
    /// The display name is being written.
    Handshaking,
    /// Both loops are at work.
    Running,
    /// The worker has ended.
    Terminated,
}

/// Why the worker ended.
#[derive(Clone, Copy, Debug, PartialEq, Eq, Structural)]
pub enum Fault {
    /// The stream could not be opened.
    ConnectFailed,
    /// The display name could not be written.
    HandshakeFailed,
    /// A frame could not be written.
    WriteFailed,
    /// Reading from the peer failed.
    ReadFailed,
    /// The peer closed the stream.
    PeerClosed,
    /// The other side of a bridge queue is gone.
    QueueClosed,
    /// A message that is not outbound was found on the outbound queue.
    WrongShape,
    /// Something happened that cannot happen in the state the worker was in.
    OutOfTurn,
}

/// Something that happened to the worker.
#[derive(Debug, PartialEq, Eq)]
pub enum WorkerEvent {
    /// The stream to the peer is open.
    Connected,
    /// The stream could not be opened.
    ConnectFailed,
    /// What was to be written has been written.
    Written,
    /// A write failed.
    WriteFailed,
    /// The outbound queue gave its next message.
    Dequeued(Message),
    /// A bridge queue is closed for good.
    QueueClosed,
    /// A read gave these bytes.
    Received(Vec<u8>),
    /// A read failed.
    ReadFailed,
    /// A read gave the end of the stream.
    PeerClosed,
}

/// What the worker is to do next.
#[derive(Debug, PartialEq, Eq)]
pub enum WorkerAction {
    /// Go on.
    Proceed,
    /// Write these bytes to the peer.
    Write(Vec<u8>),
    /// Hand these messages to the inbound queue, in this order.
    Deliver(Vec<Message>),
    /// End both loops.
    Stop(Fault),
}

/// The mathematical model of a [`WorkerEvent`].
pub enum EventView {
    Connected,
    ConnectFailed,
    Written,
    WriteFailed,
    Dequeued(MessageView),
    QueueClosed,
    Received(Seq<u8>),
    ReadFailed,
    PeerClosed,
}

/// The mathematical model of a [`WorkerAction`].
pub enum ActionView {
    Proceed,
    Write(Seq<u8>),
    Deliver(Seq<MessageView>),
    Stop(Fault),
}

impl View for WorkerEvent {
    type V = EventView;

    open spec fn view(&self) -> EventView {
        match *self {
            WorkerEvent::Connected => EventView::Connected,
            WorkerEvent::ConnectFailed => EventView::ConnectFailed,
            WorkerEvent::Written => EventView::Written,
            WorkerEvent::WriteFailed => EventView::WriteFailed,
            WorkerEvent::Dequeued(m) => EventView::Dequeued(m@),
            WorkerEvent::QueueClosed => EventView::QueueClosed,
            WorkerEvent::Received(bytes) => EventView::Received(bytes@),
            WorkerEvent::ReadFailed => EventView::ReadFailed,
            WorkerEvent::PeerClosed => EventView::PeerClosed,
        }
    }
}

impl View for WorkerAction {
    type V = ActionView;

    open spec fn view(&self) -> ActionView {
        match *self {
            WorkerAction::Proceed => ActionView::Proceed,
            WorkerAction::Write(bytes) => ActionView::Write(bytes@),
            WorkerAction::Deliver(messages) => ActionView::Deliver(views(messages@)),
            WorkerAction::Stop(fault) => ActionView::Stop(fault),
        }
    }
}

/// What a running worker does with the next message of the outbound queue:
/// it writes the frame of an outbound message, passes over one that has no
/// frame, and ends on a message of the wrong shape.
pub open spec fn on_dequeued(codec: Codec, m: MessageView) -> (WorkerState, ActionView) {
    if m is Outbound {
        match codec.frame_of(m) {
            Ok(frame) => (WorkerState::Running, ActionView::Write(frame)),
            Err(_) => (WorkerState::Running, ActionView::Proceed),
        }
    } else {
        (WorkerState::Terminated, ActionView::Stop(Fault::WrongShape))
    }
}

/// The state that the worker moves to when `event` happens in `state`, and
/// what it is to do next.
pub open spec fn next(codec: Codec, name: Seq<char>, state: WorkerState, event: EventView) -> (
    WorkerState,
    ActionView,
) {
    match (state, event) {
        (WorkerState::Terminated, _) => (WorkerState::Terminated, ActionView::Proceed),
        (WorkerState::Connecting, EventView::Connected) => (
            WorkerState::Handshaking,
            ActionView::Write(handshake_frame(name)),
        ),
        (WorkerState::Connecting, EventView::ConnectFailed) => (
            WorkerState::Terminated,
            ActionView::Stop(Fault::ConnectFailed),
        ),
        (WorkerState::Handshaking, EventView::Written) => (
            WorkerState::Running,
            ActionView::Proceed,
        ),
        (WorkerState::Handshaking, EventView::WriteFailed) => (
            WorkerState::Terminated,
            ActionView::Stop(Fault::HandshakeFailed),
        ),
        (WorkerState::Running, EventView::Dequeued(m)) => on_dequeued(codec, m),
        (WorkerState::Running, EventView::Written) => (WorkerState::Running, ActionView::Proceed),
        (WorkerState::Running, EventView::Received(bytes)) => (
            WorkerState::Running,
            ActionView::Deliver(messages_in(codec, bytes)),
        ),
        (WorkerState::Running, EventView::WriteFailed) => (
            WorkerState::Terminated,
            ActionView::Stop(Fault::WriteFailed),
        ),
        (WorkerState::Running, EventView::ReadFailed) => (
            WorkerState::Terminated,
            ActionView::Stop(Fault::ReadFailed),
        ),
        (WorkerState::Running, EventView::PeerClosed) => (
            WorkerState::Terminated,
            ActionView::Stop(Fault::PeerClosed),
        ),
        (WorkerState::Running, EventView::QueueClosed) => (
            WorkerState::Terminated,
            ActionView::Stop(Fault::QueueClosed),
        ),
        _ => (WorkerState::Terminated, ActionView::Stop(Fault::OutOfTurn)),
    }
}

/// The state after a run of events, and what the worker was to do at each
/// of them, in their order.
pub open spec fn run(codec: Codec, name: Seq<char>, state: WorkerState, events: Seq<EventView>) -> (
    WorkerState,
    Seq<ActionView>,
)
    decreases events.len(),
{
    if events.len() == 0 {
        (state, Seq::empty())
    } else {
        let first = next(codec, name, state, events[0]);
        let rest = run(codec, name, first.0, events.drop_first());
        (rest.0, seq![first.1] + rest.1)
    }
}

/// Whether a running worker is still running after `event`.
pub open spec fn keeps_running(event: EventView) -> bool {
    match event {
        EventView::Dequeued(m) => m is Outbound,
        EventView::Written => true,
        EventView::Received(_) => true,
        _ => false,
    }
}

/// A running worker that meets nothing that ends it answers each event in
/// its turn: it is still running at the end, and what it was to do at the
/// i-th place is its answer to the i-th event.
pub proof fn lemma_run_in_order(codec: Codec, name: Seq<char>, events: Seq<EventView>)
    requires
        forall|i: int| 0 <= i < events.len() ==> keeps_running(#[trigger] events[i]),
    ensures
        run(codec, name, WorkerState::Running, events).0 == WorkerState::Running,
        run(codec, name, WorkerState::Running, events).1.len() == events.len(),
        forall|i: int|
            0 <= i < events.len() ==> (#[trigger] run(
                codec,
                name,
                WorkerState::Running,
                events,
            ).1[i]) == next(codec, name, WorkerState::Running, events[i]).1,
    decreases events.len(),
{
    if events.len() > 0 {
        let rest = events.drop_first();
        assert(keeps_running(events[0]));
        assert forall|i: int| 0 <= i < rest.len() implies keeps_running(#[trigger] rest[i]) by {
            assert(rest[i] == events[i + 1]);
        }
        lemma_run_in_order(codec, name, rest);
        let all = run(codec, name, WorkerState::Running, events).1;
        let tail = run(codec, name, WorkerState::Running, rest).1;
        assert forall|i: int| 0 <= i < events.len() implies (#[trigger] all[i]) == next(
            codec,
            name,
            WorkerState::Running,
            events[i],
        ).1 by {
            if i > 0 {
                assert(all[i] == tail[i - 1]);
                assert(rest[i - 1] == events[i]);
            }
        }
    }
}

/// Ordering: a running worker that is given outbound messages one after the
/// other, each of which has a frame, is to write exactly their frames, in
/// the order in which the messages came.
pub proof fn lemma_writes_in_order(codec: Codec, name: Seq<char>, messages: Seq<MessageView>)
    requires
        forall|i: int|
            0 <= i < messages.len() ==> (#[trigger] messages[i]) is Outbound && codec.frame_of(
                messages[i],
            ) is Ok,
    ensures
        run(
            codec,
            name,
            WorkerState::Running,
            messages.map_values(|m: MessageView| EventView::Dequeued(m)),
        ) == (
            WorkerState::Running,
            messages.map_values(|m: MessageView| ActionView::Write(codec.frame_of(m)->Ok_0)),
        ),
{
    let events = messages.map_values(|m: MessageView| EventView::Dequeued(m));
    let writes = messages.map_values(|m: MessageView| ActionView::Write(codec.frame_of(m)->Ok_0));
    assert forall|i: int| 0 <= i < events.len() implies keeps_running(#[trigger] events[i]) by {
        assert(messages[i] is Outbound);
    }
    lemma_run_in_order(codec, name, events);
    let done = run(codec, name, WorkerState::Running, events).1;
    assert forall|i: int| 0 <= i < done.len() implies done[i] == writes[i] by {
        assert(messages[i] is Outbound && codec.frame_of(messages[i]) is Ok);
        assert(events[i] == EventView::Dequeued(messages[i]));
    }
    assert(done =~= writes);
}

/// Decides what the worker does when `event` happens in `state`.
pub fn step(codec: &Codec, name: &str, state: WorkerState, event: WorkerEvent) -> (r: (
    WorkerState,
    WorkerAction,
))
    ensures
        (r.0, r.1@) == next(*codec, name@, state, event@),
{
    match state {
        WorkerState::Terminated => (WorkerState::Terminated, WorkerAction::Proceed),
        WorkerState::Connecting => match event {
            WorkerEvent::Connected => (
                WorkerState::Handshaking,
                WorkerAction::Write(codec.handshake(name)),
            ),
            WorkerEvent::ConnectFailed => (
                WorkerState::Terminated,
                WorkerAction::Stop(Fault::ConnectFailed),
            ),
            _ => (WorkerState::Terminated, WorkerAction::Stop(Fault::OutOfTurn)),
        },
        WorkerState::Handshaking => match event {
            WorkerEvent::Written => (WorkerState::Running, WorkerAction::Proceed),
            WorkerEvent::WriteFailed => (
                WorkerState::Terminated,
                WorkerAction::Stop(Fault::HandshakeFailed),
            ),
            _ => (WorkerState::Terminated, WorkerAction::Stop(Fault::OutOfTurn)),
        },
        WorkerState::Running => match event {
            WorkerEvent::Dequeued(m) => match m.shape() {
                Shape::Outbound => match codec.encode(&m) {
                    Ok(frame) => (WorkerState::Running, WorkerAction::Write(frame)),
                    Err(_) => (WorkerState::Running, WorkerAction::Proceed),
                },
                Shape::Inbound => (WorkerState::Terminated, WorkerAction::Stop(Fault::WrongShape)),
            },
            WorkerEvent::Written => (WorkerState::Running, WorkerAction::Proceed),
            WorkerEvent::Received(bytes) => (
                WorkerState::Running,
                WorkerAction::Deliver(decode_chunk(codec, bytes.as_slice())),
            ),
            WorkerEvent::WriteFailed => (
                WorkerState::Terminated,
                WorkerAction::Stop(Fault::WriteFailed),
            ),
            WorkerEvent::ReadFailed => (
                WorkerState::Terminated,
                WorkerAction::Stop(Fault::ReadFailed),
            ),
            WorkerEvent::PeerClosed => (
                WorkerState::Terminated,
                WorkerAction::Stop(Fault::PeerClosed),
            ),
            WorkerEvent::QueueClosed => (
                WorkerState::Terminated,
                WorkerAction::Stop(Fault::QueueClosed),
            ),
            _ => (WorkerState::Terminated, WorkerAction::Stop(Fault::OutOfTurn)),
        },
    }
}

} // verus!
