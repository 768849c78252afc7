//! The chat state store: the history of every room, and the tags.
//!
//! The store belongs to the presentation layer. It is made from a snapshot
//! when the program starts, grows with every message that is sent or
//! delivered, and is the snapshot that is kept when the program ends. The
//! worker never sees it.
//!
//! A room is an index into the list of rooms. Rooms are added behind the
//! others and never taken away, so a room keeps its index. A store always
//! begins with at least one room.

use crate::message::{clone_tag, tag_view, views, Message, MessageView, Tag, TagView};
use crate::text::same_text;
use vstd::prelude::*;

verus! {

/// One line of a room's history: who wrote it, what it says, and its tag.
#[derive(Debug, PartialEq, Eq)]
pub struct Entry {
    pub sender: String,
    pub content: String,
    pub tag: Option<Tag>,
}

/// The mathematical model of an [`Entry`].
pub struct EntryView {
    pub sender: Seq<char>,
    pub content: Seq<char>,
    pub tag: Option<TagView>,
}

impl View for Entry {
    type V = EntryView;

    open spec fn view(&self) -> EntryView {
        EntryView { sender: self.sender@, content: self.content@, tag: tag_view(self.tag) }
    }
}

impl Clone for Entry {
    fn clone(&self) -> (r: Self)
        ensures
            r@ == self@,
    {
        Entry {
            sender: self.sender.clone(),
            content: self.content.clone(),
            tag: clone_tag(&self.tag),
        }
    }
}

/// The line that records `m` in the history of the user called `name`: an
/// outbound message was written by that user.
pub open spec fn entry_of(m: MessageView, name: Seq<char>) -> EntryView {
    match m {
        MessageView::Outbound { content, tag, .. } => EntryView { sender: name, content, tag },
        MessageView::Inbound { sender, content, tag, .. } => EntryView { sender, content, tag },
    }
}

/// The message that the line `e` of room `room` records, seen by the user
/// called `name`: what that user wrote is outbound, all else is inbound.
pub open spec fn message_of(e: EntryView, name: Seq<char>, room: usize) -> MessageView {
    if e.sender == name {
        MessageView::Outbound { content: e.content, room, tag: e.tag }
    } else {
        MessageView::Inbound { sender: e.sender, content: e.content, room, tag: e.tag }
    }
}

/// A message that is recorded and read again is the same message, unless it
/// came from a peer who bears the user's own name.
pub proof fn lemma_recorded_message(m: MessageView, name: Seq<char>)
    requires
        m matches MessageView::Inbound { sender, .. } ==> sender != name,
    ensures
        message_of(entry_of(m, name), name, m.room()) == m,
{
}

/// The models of the lines of a room, in their order.
pub open spec fn room_view(room: Vec<Entry>) -> Seq<EntryView> {
    room@.map_values(|e: Entry| e@)
}

/// The models of the tags of a list, in their order.
pub open spec fn tags_view(tags: Vec<Tag>) -> Seq<TagView> {
    tags@.map_values(|t: Tag| t@)
}

/// The mathematical model of a [`SerializedState`].
pub struct StateView {
    pub rooms: Seq<Seq<EntryView>>,
    pub tags: Seq<TagView>,
}

/// The chat history of every room, and the tags.
#[derive(Debug, PartialEq, Eq)]
pub struct SerializedState {
    rooms: Vec<Vec<Entry>>,
    tags: Vec<Tag>,
}

impl View for SerializedState {
    type V = StateView;

    closed spec fn view(&self) -> StateView {
        StateView {
            rooms: self.rooms@.map_values(|room: Vec<Entry>| room_view(room)),
            tags: tags_view(self.tags),
        }
    }
}

/// Makes the line that records `mess` in the history of the user called
/// `name`.
pub fn make_entry(mess: &Message, name: &str) -> (e: Entry)
    ensures
        e@ == entry_of(mess@, name@),
{
    match mess {
        Message::Outbound { content, tag, .. } => Entry {
            sender: name.to_owned(),
            content: content.clone(),
            tag: clone_tag(tag),
        },
        Message::Inbound { sender, content, tag, .. } => Entry {
            sender: sender.clone(),
            content: content.clone(),
            tag: clone_tag(tag),
        },
    }
}

/// Reads the message that the line `e` of room `room` records, as the user
/// called `name` sees it.
pub fn read_entry(e: &Entry, name: &str, room: usize) -> (m: Message)
    ensures
        m@ == message_of(e@, name@, room),
{
    if same_text(e.sender.as_str(), name) {
        Message::Outbound { content: e.content.clone(), room, tag: clone_tag(&e.tag) }
    } else {
        Message::Inbound {
            sender: e.sender.clone(),
            content: e.content.clone(),
            room,
            tag: clone_tag(&e.tag),
        }
    }
}

/// The history of a room as messages, as the user called `name` sees it.
pub open spec fn room_messages(room: Seq<EntryView>, name: Seq<char>, index: usize) -> Seq<
    MessageView,
> {
    room.map_values(|e: EntryView| message_of(e, name, index))
}

/// Reads the history of the room that has the index `index` as messages,
/// as the user called `name` sees it.
pub fn read_room(room: &Vec<Entry>, name: &str, index: usize) -> (r: Vec<Message>)
    ensures
        views(r@) == room_messages(room_view(*room), name@, index),
{
    let mut messages: Vec<Message> = Vec::new();
    let mut j: usize = 0;
    while j < room.len()
        invariant
            j <= room@.len(),
            messages@.len() == j,
            forall|b: int|
                0 <= b < j ==> (#[trigger] messages@[b])@ == message_of(room@[b]@, name@, index),
        decreases room@.len() - j,
    {
        messages.push(read_entry(&room[j], name, index));
        j += 1;
    }
    assert(views(messages@) =~= room_messages(room_view(*room), name@, index));
    messages
}

impl Default for SerializedState {
    /// The store of a first start: one empty room, and the tag named
    /// `undefined`.
    fn default() -> (r: Self)
        ensures
            r@.rooms == seq![Seq::<EntryView>::empty()],
            r@.tags == seq![TagView::undefined()],
    {
        let mut rooms: Vec<Vec<Entry>> = Vec::new();
        rooms.push(Vec::new());
        let mut tags: Vec<Tag> = Vec::new();
        tags.push(Tag::default());
        let r = SerializedState { rooms, tags };
        assert(r@.rooms =~= seq![Seq::<EntryView>::empty()]) by {
            assert(room_view(r.rooms@[0]) =~= Seq::<EntryView>::empty());
        }
        assert(r@.tags =~= seq![TagView::undefined()]);
        r
    }
}

impl SerializedState {
    /// The store that a snapshot holds: its rooms and its tags. A snapshot
    /// without a room gives a store with one empty room.
    pub fn from_parts(rooms: Vec<Vec<Entry>>, tags: Vec<Tag>) -> (r: SerializedState)
        ensures
            r@.rooms == (if rooms@.len() == 0 {
                seq![Seq::<EntryView>::empty()]
            } else {
                rooms@.map_values(|room: Vec<Entry>| room_view(room))
            }),
            r@.tags == tags_view(tags),
    {
        let mut rooms = rooms;
        if rooms.len() == 0 {
            rooms.push(Vec::new());
            assert(rooms@.map_values(|room: Vec<Entry>| room_view(room)) =~= seq![
                Seq::<EntryView>::empty(),
            ]) by {
                assert(room_view(rooms@[0]) =~= Seq::<EntryView>::empty());
            }
        }
        SerializedState { rooms, tags }
    }

    /// The rooms, for a snapshot.
    pub fn rooms(&self) -> (r: &Vec<Vec<Entry>>)
        ensures
            r@.map_values(|room: Vec<Entry>| room_view(room)) == self@.rooms,
    {
        &self.rooms
    }

    /// The tags, for a snapshot.
    pub fn tags(&self) -> (r: &Vec<Tag>)
        ensures
            tags_view(*r) == self@.tags,
    {
        &self.tags
    }

    /// How many rooms there are.
    pub fn room_count(&self) -> (n: usize)
        ensures
            n == self@.rooms.len(),
    {
        self.rooms.len()
    }

    /// The history as messages, room by room, as the user called `name`
    /// sees it.
    pub fn get_messages(&self, name: &str) -> (r: Vec<Vec<Message>>)
        ensures
            r@.len() == self@.rooms.len(),
            forall|i: int|
                0 <= i < r@.len() ==> views((#[trigger] r@[i])@) == room_messages(
                    self@.rooms[i],
                    name@,
                    i as usize,
                ),
    {
        let mut out: Vec<Vec<Message>> = Vec::new();
        let mut i: usize = 0;
        while i < self.rooms.len()
            invariant
                i <= self.rooms@.len(),
                out@.len() == i,
                forall|a: int|
                    0 <= a < i ==> views((#[trigger] out@[a])@) == room_messages(
                        room_view(self.rooms@[a]),
                        name@,
                        a as usize,
                    ),
            decreases self.rooms@.len() - i,
        {
            out.push(read_room(&self.rooms[i], name, i));
            i += 1;
        }
        out
    }

    /// Records `mess` at the end of the history of the room `room_idx`, for
    /// the user called `name`.
    pub fn add_message(&mut self, mess: &Message, name: &str, room_idx: usize)
        requires
            room_idx < old(self)@.rooms.len(),
        ensures
            final(self)@.rooms == old(self)@.rooms.update(
                room_idx as int,
                old(self)@.rooms[room_idx as int].push(entry_of(mess@, name@)),
            ),
            final(self)@.tags == old(self)@.tags,
    {
        let entry = make_entry(mess, name);
        let ghost before = self.rooms@;
        self.rooms[room_idx].push(entry);
        proof {
            let after = self.rooms@;
            assert(after[room_idx as int]@ == before[room_idx as int]@.push(entry));
            assert(room_view(after[room_idx as int]) =~= room_view(before[room_idx as int]).push(
                entry@,
            ));
            assert(self@.rooms =~= old(self)@.rooms.update(
                room_idx as int,
                old(self)@.rooms[room_idx as int].push(entry_of(mess@, name@)),
            ));
        }
    }

    /// Adds an empty room behind the others. The rooms that were there keep
    /// their index and their history.
    pub fn add_room(&mut self)
        ensures
            final(self)@.rooms == old(self)@.rooms.push(Seq::empty()),
            final(self)@.tags == old(self)@.tags,
    {
        self.rooms.push(Vec::new());
        proof {
            let last = self.rooms@.len() - 1;
            assert(room_view(self.rooms@[last]) =~= Seq::<EntryView>::empty());
            assert(self@.rooms =~= old(self)@.rooms.push(Seq::empty()));
        }
    }

    /// Adds a tag behind the others, unless its name is empty.
    pub fn add_tag(&mut self, tag: Tag) -> (added: bool)
        ensures
            added == (tag@.name.len() > 0),
            added ==> final(self)@.tags == old(self)@.tags.push(tag@),
            !added ==> final(self)@.tags == old(self)@.tags,
            final(self)@.rooms == old(self)@.rooms,
    {
        if tag.name.as_str().is_empty() {
            return false;
        }
        self.tags.push(tag);
        assert(self@.tags =~= old(self)@.tags.push(tag@));
        true
    }

    /// Takes the tag at `idx` out of the list; the tags behind it move up.
    pub fn remove_tag(&mut self, idx: usize)
        requires
            idx < old(self)@.tags.len(),
        ensures
            final(self)@.tags == old(self)@.tags.remove(idx as int),
            final(self)@.rooms == old(self)@.rooms,
    {
        let _ = self.tags.remove(idx);
        assert(self@.tags =~= old(self)@.tags.remove(idx as int));
    }
}

} // verus!
