//! The messages that cross the bridge, and the tags they carry.

use crate::color::{Color, ColorView};
use vstd::prelude::*;

verus! {

/// A label with a display colour. Two tags with one name are the same tag.
#[derive(Debug, PartialEq, Eq)]
pub struct Tag {
    pub name: String,
    pub color: Color,
}

/// The mathematical model of a [`Tag`].
pub struct TagView {
    pub name: Seq<char>,
    pub color: ColorView,
}

impl View for Tag {
    type V = TagView;

    open spec fn view(&self) -> TagView {
        TagView { name: self.name@, color: self.color@ }
    }
}

impl TagView {
    /// The tag of a message that was given none: black, and named `undefined`.
    pub open spec fn undefined() -> TagView {
        TagView { name: "undefined"@, color: ColorView::black() }
    }

    /// The tag as a frame carries it.
    pub open spec fn truncated(self) -> TagView {
        TagView { name: self.name, color: self.color.truncated() }
    }
}

impl Clone for Tag {
    fn clone(&self) -> (r: Self)
        ensures
            r@ == self@,
    {
        Tag { name: self.name.clone(), color: self.color.clone() }
    }
}

impl Default for Tag {
    fn default() -> (r: Self)
        ensures
            r@ == TagView::undefined(),
    {
        Tag { name: "undefined".to_owned(), color: Color::black() }
    }
}

/// The two shapes of a message.
#[derive(Clone, Copy, Debug, PartialEq, Eq, Structural)]
pub enum Shape {
    /// Written here, on its way to the peer.
    Outbound,
    /// Received from the peer.
    Inbound,
}

/// A message on its way through the bridge.
#[derive(Debug, PartialEq, Eq)]
pub enum Message {
    /// Written here, on its way to the peer.
    Outbound { content: String, room: usize, tag: Option<Tag> },
    /// Received from the peer.
    Inbound { sender: String, content: String, room: usize, tag: Option<Tag> },
}

/// The mathematical model of a [`Message`].
pub enum MessageView {
    Outbound { content: Seq<char>, room: usize, tag: Option<TagView> },
    Inbound { sender: Seq<char>, content: Seq<char>, room: usize, tag: Option<TagView> },
}

/// The model of a tag that may be absent.
pub open spec fn tag_view(tag: Option<Tag>) -> Option<TagView> {
    match tag {
        Some(t) => Some(t@),
        None => None,
    }
}

impl View for Message {
    type V = MessageView;

    open spec fn view(&self) -> MessageView {
        match *self {
            Message::Outbound { content, room, tag } => MessageView::Outbound {
                content: content@,
                room,
                tag: tag_view(tag),
            },
            Message::Inbound { sender, content, room, tag } => MessageView::Inbound {
                sender: sender@,
                content: content@,
                room,
                tag: tag_view(tag),
            },
        }
    }
}

impl MessageView {
    /// The shape of the message.
    pub open spec fn shape(self) -> Shape {
        match self {
            MessageView::Outbound { .. } => Shape::Outbound,
            MessageView::Inbound { .. } => Shape::Inbound,
        }
    }

    /// The text of the message.
    pub open spec fn content(self) -> Seq<char> {
        match self {
            MessageView::Outbound { content, .. } => content,
            MessageView::Inbound { content, .. } => content,
        }
    }

    /// The room that the message belongs to.
    pub open spec fn room(self) -> usize {
        match self {
            MessageView::Outbound { room, .. } => room,
            MessageView::Inbound { room, .. } => room,
        }
    }

    /// The tag of the message, if it has one.
    pub open spec fn tag(self) -> Option<TagView> {
        match self {
            MessageView::Outbound { tag, .. } => tag,
            MessageView::Inbound { tag, .. } => tag,
        }
    }
}

/// The models of a run of messages, in their order.
pub open spec fn views(messages: Seq<Message>) -> Seq<MessageView> {
    messages.map_values(|m: Message| m@)
}

/// Copies a tag that may be absent.
pub fn clone_tag(tag: &Option<Tag>) -> (r: Option<Tag>)
    ensures
        tag_view(r) == tag_view(*tag),
{
    match tag {
        Some(t) => Some(t.clone()),
        None => None,
    }
}

impl Clone for Message {
    fn clone(&self) -> (r: Self)
        ensures
            r@ == self@,
    {
        match self {
            Message::Outbound { content, room, tag } => Message::Outbound {
                content: content.clone(),
                room: *room,
                tag: clone_tag(tag),
            },
            Message::Inbound { sender, content, room, tag } => Message::Inbound {
                sender: sender.clone(),
                content: content.clone(),
                room: *room,
                tag: clone_tag(tag),
            },
        }
    }
}

impl Message {
    /// The shape of the message.
    pub fn shape(&self) -> (r: Shape)
        ensures
            r == self@.shape(),
    {
        match self {
            Message::Outbound { .. } => Shape::Outbound,
            Message::Inbound { .. } => Shape::Inbound,
        }
    }

    /// The text of the message.
    pub fn content(&self) -> (r: &String)
        ensures
            r@ == self@.content(),
    {
        match self {
            Message::Outbound { content, .. } => content,
            Message::Inbound { content, .. } => content,
        }
    }

    /// The room that the message belongs to.
    pub fn room(&self) -> (r: usize)
        ensures
            r == self@.room(),
    {
        match self {
            Message::Outbound { room, .. } => *room,
            Message::Inbound { room, .. } => *room,
        }
    }

    /// The tag of the message, if it has one.
    pub fn tag(&self) -> (r: &Option<Tag>)
        ensures
            tag_view(*r) == self@.tag(),
    {
        match self {
            Message::Outbound { tag, .. } => tag,
            Message::Inbound { tag, .. } => tag,
        }
    }
}

} // verus!
