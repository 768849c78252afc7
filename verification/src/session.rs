//! What the presentation layer decides between two frames of rendering.
//!
//! A session is the store together with what the user has chosen: the own
//! display name, the room in view, the tag for what is written next, and
//! the text that is searched for. Every message that leaves for the worker
//! is made here, and every message that the worker delivers is recorded
//! here. A room index is checked here, before a message is made for it: the
//! worker checks none. Only inbound messages are delivered; what takes a
//! delivered message demands that shape of its caller.

use crate::message::{clone_tag, tag_view, views, Message, MessageView, Tag, TagView};
use crate::codec::Codec;
use crate::store::{entry_of, read_room, room_messages, SerializedState, StateView};
use crate::text::{contains_text, occurs_in, wire_bytes};
use vstd::prelude::*;

verus! {

/// The store, and what the user has chosen.
#[derive(Debug, PartialEq, Eq)]
pub struct Session {
    state: SerializedState,
    name: String,
    current_room: usize,
    current_tag: Option<Tag>,
    search_pattern: String,
}

/// The mathematical model of a [`Session`].
pub struct SessionView {
    pub state: StateView,
    pub name: Seq<char>,
    pub current_room: int,
    pub current_tag: Option<TagView>,
    pub search_pattern: Seq<char>,
}

impl View for Session {
    type V = SessionView;

    closed spec fn view(&self) -> SessionView {
        SessionView {
            state: self.state@,
            name: self.name@,
            current_room: self.current_room as int,
            current_tag: tag_view(self.current_tag),
            search_pattern: self.search_pattern@,
        }
    }
}

/// The message that is made of `content` for the room `room`, with the tag
/// `tag`.
pub open spec fn composed(content: Seq<char>, room: int, tag: Option<TagView>) -> MessageView {
    MessageView::Outbound { content, room: room as usize, tag }
}

/// The store with `m` recorded at the end of room `room`.
pub open spec fn recorded(
    state: StateView,
    m: MessageView,
    name: Seq<char>,
    room: int,
) -> StateView {
    StateView {
        rooms: state.rooms.update(room, state.rooms[room].push(entry_of(m, name))),
        tags: state.tags,
    }
}

/// Whether the text of `m` holds `pattern`.
pub open spec fn is_shown(m: MessageView, pattern: Seq<char>) -> bool {
    occurs_in(wire_bytes(pattern), wire_bytes(m.content()))
}

/// The test that tells the messages whose text holds `pattern`.
pub open spec fn shown_test(pattern: Seq<char>) -> spec_fn(MessageView) -> bool {
    |m: MessageView| is_shown(m, pattern)
}

impl SessionView {
    /// Whether the room in view exists.
    pub open spec fn in_view(self) -> bool {
        0 <= self.current_room < self.state.rooms.len()
    }

    /// The messages of the room in view whose text holds what is searched
    /// for, in their order. A room that does not exist shows nothing.
    pub open spec fn shown(self) -> Seq<MessageView> {
        if self.in_view() {
            room_messages(
                self.state.rooms[self.current_room],
                self.name,
                self.current_room as usize,
            ).filter(shown_test(self.search_pattern))
        } else {
            Seq::empty()
        }
    }

    /// The room that a delivered message is recorded in: the one that the
    /// message names where frames carry a room index, and the room in view
    /// where they carry none.
    pub open spec fn room_for(self, codec: Codec, m: MessageView) -> int {
        if codec.names_room() {
            m.room() as int
        } else {
            self.current_room
        }
    }
}

impl Session {
    /// Whether the session is well-formed: the room in view exists.
    pub open spec fn wf(&self) -> bool {
        self@.in_view()
    }

    /// The session that begins with `state`, for the user called `name`:
    /// the first room is in view, no tag is chosen, and nothing is searched
    /// for.
    pub fn new(state: SerializedState, name: String) -> (r: Session)
        ensures
            state@.rooms.len() > 0 ==> r.wf(),
            r@ == (SessionView {
                state: state@,
                name: name@,
                current_room: 0,
                current_tag: None,
                search_pattern: Seq::empty(),
            }),
    {
        Session { state, name, current_room: 0, current_tag: None, search_pattern: String::new() }
    }

    /// The store, for a snapshot.
    pub fn state(&self) -> (r: &SerializedState)
        ensures
            r@ == self@.state,
    {
        &self.state
    }

    /// The display name of the user.
    pub fn name(&self) -> (r: &String)
        ensures
            r@ == self@.name,
    {
        &self.name
    }

    /// The room in view.
    pub fn current_room(&self) -> (r: usize)
        ensures
            r == self@.current_room,
    {
        self.current_room
    }

    /// The tag for what is written next.
    pub fn current_tag(&self) -> (r: &Option<Tag>)
        ensures
            tag_view(*r) == self@.current_tag,
    {
        &self.current_tag
    }

    /// Brings the room `idx` into view, if there is such a room.
    pub fn select_room(&mut self, idx: usize) -> (accepted: bool)
        ensures
            old(self).wf() ==> final(self).wf(),
            accepted == (idx < old(self)@.state.rooms.len()),
            accepted ==> final(self)@ == (SessionView { current_room: idx as int, ..old(self)@ }),
            !accepted ==> final(self)@ == old(self)@,
    {
        if idx < self.state.room_count() {
            self.current_room = idx;
            true
        } else {
            false
        }
    }

    /// Chooses the tag at `idx` of the store's tags for what is written
    /// next, if there is such a tag.
    pub fn select_tag(&mut self, idx: usize) -> (accepted: bool)
        ensures
            old(self).wf() ==> final(self).wf(),
            accepted == (idx < old(self)@.state.tags.len()),
            accepted ==> final(self)@ == (SessionView {
                current_tag: Some(old(self)@.state.tags[idx as int]),
                ..old(self)@
            }),
            !accepted ==> final(self)@ == old(self)@,
    {
        let tags = self.state.tags();
        if idx < tags.len() {
            let chosen = tags[idx].clone();
            self.current_tag = Some(chosen);
            true
        } else {
            false
        }
    }

    /// Chooses that what is written next has no tag.
    pub fn clear_tag(&mut self)
        ensures
            old(self).wf() ==> final(self).wf(),
            final(self)@ == (SessionView { current_tag: None, ..old(self)@ }),
    {
        self.current_tag = None;
    }

    /// Sets the text that is searched for.
    pub fn set_search(&mut self, pattern: String)
        ensures
            old(self).wf() ==> final(self).wf(),
            final(self)@ == (SessionView { search_pattern: pattern@, ..old(self)@ }),
    {
        self.search_pattern = pattern;
    }

    /// Adds an empty room behind the others. The room in view stays.
    pub fn add_room(&mut self)
        ensures
            old(self).wf() ==> final(self).wf(),
            final(self)@ == (SessionView {
                state: StateView {
                    rooms: old(self)@.state.rooms.push(Seq::empty()),
                    tags: old(self)@.state.tags,
                },
                ..old(self)@
            }),
    {
        self.state.add_room();
    }

    /// Adds a tag behind the others, unless its name is empty.
    pub fn add_tag(&mut self, tag: Tag) -> (added: bool)
        ensures
            old(self).wf() ==> final(self).wf(),
            added == (tag@.name.len() > 0),
            added ==> final(self)@ == (SessionView {
                state: StateView {
                    rooms: old(self)@.state.rooms,
                    tags: old(self)@.state.tags.push(tag@),
                },
                ..old(self)@
            }),
            !added ==> final(self)@ == old(self)@,
    {
        let added = self.state.add_tag(tag);
        proof {
            if !added {
                assert(self@.state == old(self)@.state);
            }
        }
        added
    }

    /// Takes the tag at `idx` out of the store's tags, if there is such a
    /// tag; the tags behind it move up. The tag that was chosen for what is
    /// written next stays chosen.
    pub fn remove_tag(&mut self, idx: usize) -> (removed: bool)
        ensures
            old(self).wf() ==> final(self).wf(),
            removed == (idx < old(self)@.state.tags.len()),
            removed ==> final(self)@ == (SessionView {
                state: StateView {
                    rooms: old(self)@.state.rooms,
                    tags: old(self)@.state.tags.remove(idx as int),
                },
                ..old(self)@
            }),
            !removed ==> final(self)@ == old(self)@,
    {
        if idx < self.state.tags().len() {
            self.state.remove_tag(idx);
            true
        } else {
            false
        }
    }

    /// Writes `content` into the room `room_idx`: the message is recorded
    /// there and handed back for the worker, with `room_idx` as its room
    /// index. Where there is no such room, nothing is recorded and there is
    /// no message.
    pub fn send_to(&mut self, content: String, room_idx: usize) -> (r: Option<Message>)
        ensures
            old(self).wf() ==> final(self).wf(),
            r is Some <==> room_idx < old(self)@.state.rooms.len(),
            r matches Some(m) ==> m@ == composed(
                content@,
                room_idx as int,
                old(self)@.current_tag,
            ) && final(self)@ == (SessionView {
                state: recorded(old(self)@.state, m@, old(self)@.name, room_idx as int),
                ..old(self)@
            }),
            r is None ==> final(self)@ == old(self)@,
    {
        if room_idx >= self.state.room_count() {
            return None;
        }
        let m = Message::Outbound { content, room: room_idx, tag: clone_tag(&self.current_tag) };
        self.state.add_message(&m, self.name.as_str(), room_idx);
        Some(m)
    }

    /// Writes `content` into the room in view: the message is recorded there
    /// and handed back for the worker. In a well-formed session there
    /// always is a message.
    pub fn send(&mut self, content: String) -> (r: Option<Message>)
        ensures
            old(self).wf() ==> final(self).wf(),
            r is Some <==> old(self)@.in_view(),
            r matches Some(m) ==> m@ == composed(
                content@,
                old(self)@.current_room,
                old(self)@.current_tag,
            ) && final(self)@ == (SessionView {
                state: recorded(old(self)@.state, m@, old(self)@.name, old(self)@.current_room),
                ..old(self)@
            }),
            r is None ==> final(self)@ == old(self)@,
    {
        let room_idx: usize = self.current_room;
        self.send_to(content, room_idx)
    }

    /// Records a message that the worker delivered, in the room that it
    /// names. Where that room does not exist, nothing is recorded.
    pub fn receive(&mut self, m: &Message) -> (done: bool)
        requires
            m@ is Inbound,
        ensures
            old(self).wf() ==> final(self).wf(),
            done == (m@.room() < old(self)@.state.rooms.len()),
            done ==> final(self)@ == (SessionView {
                state: recorded(old(self)@.state, m@, old(self)@.name, m@.room() as int),
                ..old(self)@
            }),
            !done ==> final(self)@ == old(self)@,
    {
        let idx: usize = m.room();
        if idx >= self.state.room_count() {
            false
        } else {
            self.state.add_message(m, self.name.as_str(), idx);
            true
        }
    }

    /// Records a message that the worker delivered, in the room in view,
    /// whatever room the message names. Where the room in view does not
    /// exist, nothing is recorded.
    pub fn receive_here(&mut self, m: &Message) -> (done: bool)
        requires
            m@ is Inbound,
        ensures
            old(self).wf() ==> final(self).wf() && done,
            done == old(self)@.in_view(),
            done ==> final(self)@ == (SessionView {
                state: recorded(old(self)@.state, m@, old(self)@.name, old(self)@.current_room),
                ..old(self)@
            }),
            !done ==> final(self)@ == old(self)@,
    {
        let idx: usize = self.current_room;
        if idx >= self.state.room_count() {
            false
        } else {
            self.state.add_message(m, self.name.as_str(), idx);
            true
        }
    }

    /// Records a message that the worker delivered over `codec`: in the room
    /// that the message names where frames carry a room index, and in the
    /// room in view where they carry none. Where that room does not exist,
    /// nothing is recorded.
    pub fn deliver(&mut self, codec: &Codec, m: &Message) -> (done: bool)
        requires
            m@ is Inbound,
        ensures
            old(self).wf() ==> final(self).wf(),
            done == (0 <= old(self)@.room_for(*codec, m@) < old(self)@.state.rooms.len()),
            done ==> final(self)@ == (SessionView {
                state: recorded(
                    old(self)@.state,
                    m@,
                    old(self)@.name,
                    old(self)@.room_for(*codec, m@),
                ),
                ..old(self)@
            }),
            !done ==> final(self)@ == old(self)@,
    {
        if codec.has_room_index() {
            self.receive(m)
        } else {
            self.receive_here(m)
        }
    }

    /// The messages of the room in view whose text holds what is searched
    /// for, in their order.
    pub fn shown(&self) -> (r: Vec<Message>)
        ensures
            views(r@) == self@.shown(),
    {
        let rooms = self.state.rooms();
        if self.current_room >= rooms.len() {
            return Vec::new();
        }
        let room = read_room(&rooms[self.current_room], self.name.as_str(), self.current_room);
        let ghost whole = views(room@);
        let ghost pattern = self@.search_pattern;
        let mut out: Vec<Message> = Vec::new();
        let mut i: usize = 0;
        while i < room.len()
            invariant
                i <= room@.len(),
                views(room@) == whole,
                pattern == self.search_pattern@,
                views(out@) == whole.subrange(0, i as int).filter(shown_test(pattern)),
            decreases room@.len() - i,
        {
            let m = &room[i];
            let ghost test = shown_test(pattern);
            let ghost shorter = whole.subrange(0, i as int);
            let ghost longer = whole.subrange(0, i + 1);
            proof {
                assert(whole[i as int] == views(room@)[i as int]);
                assert(longer =~= shorter.push(m@));
                assert(test(m@) == is_shown(m@, pattern));
                shorter.lemma_filter_push(m@, test);
            }
            if contains_text(self.search_pattern.as_str(), m.content().as_str()) {
                let ghost before = views(out@);
                out.push(m.clone());
                assert(views(out@) =~= before.push(m@));
            }
            i += 1;
        }
        assert(whole.subrange(0, i as int) == whole);
        out
    }
}

} // verus!
