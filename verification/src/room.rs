//! Rooms and the tables that a node keeps of them. A table holds at most one
//! room under an id, and lists its rooms in the order in which their ids
//! first came in.

use vstd::prelude::*;

use crate::packet::{RoomInfo, RoomInfoView};

verus! {

/// A room as a node holds it in memory.
#[derive(Debug, Clone, PartialEq, Eq)]
pub struct Room {
    pub info: RoomInfo,
}

impl View for Room {
    type V = RoomInfoView;

    open spec fn view(&self) -> RoomInfoView {
        self.info@
    }
}

impl DeepView for Room {
    type V = RoomInfoView;

    open spec fn deep_view(&self) -> RoomInfoView {
        self.info@
    }
}

/// Whether no two of `entries` have the same id.
pub open spec fn distinct_ids(entries: Seq<RoomInfoView>) -> bool {
    forall|i: int, j: int|
        0 <= i < j < entries.len() ==> (#[trigger] entries[i]).id != (#[trigger] entries[j]).id
}

/// Whether one of `entries` has the id `id`.
pub open spec fn has_id(entries: Seq<RoomInfoView>, id: Seq<char>) -> bool {
    exists|i: int| 0 <= i < entries.len() && (#[trigger] entries[i]).id == id
}

/// Where in `entries` the room with the id `id` stands, if there is one.
pub open spec fn index_of(entries: Seq<RoomInfoView>, id: Seq<char>) -> int {
    choose|i: int| 0 <= i < entries.len() && (#[trigger] entries[i]).id == id
}

/// The room in `entries` with the id `id`, if there is one.
pub open spec fn room_of(entries: Seq<RoomInfoView>, id: Seq<char>) -> RoomInfoView {
    entries[index_of(entries, id)]
}

/// `entries` with `info` put in: in the place of the room that has its id,
/// or at the end where no room has it.
pub open spec fn inserted(entries: Seq<RoomInfoView>, info: RoomInfoView) -> Seq<RoomInfoView> {
    if has_id(entries, info.id) {
        entries.update(index_of(entries, info.id), info)
    } else {
        entries.push(info)
    }
}

/// The ids of `entries`, in their order.
pub open spec fn ids_of(entries: Seq<RoomInfoView>) -> Seq<Seq<char>> {
    Seq::new(entries.len(), |i: int| entries[i].id)
}

/// Putting a room in keeps the ids distinct, makes the room the one under
/// its id and leaves the rooms under other ids as they were.
pub proof fn lemma_inserted(entries: Seq<RoomInfoView>, info: RoomInfoView, other: Seq<char>)
    requires
        distinct_ids(entries),
    ensures
        distinct_ids(inserted(entries, info)),
        has_id(inserted(entries, info), info.id),
        room_of(inserted(entries, info), info.id) == info,
        other != info.id ==> has_id(inserted(entries, info), other) == has_id(entries, other),
        other != info.id && has_id(entries, other) ==> room_of(inserted(entries, info), other)
            == room_of(entries, other),
{
    let after = inserted(entries, info);
    let at = if has_id(entries, info.id) {
        index_of(entries, info.id)
    } else {
        entries.len() as int
    };
    assert(after[at] == info);
    assert(forall|i: int| 0 <= i < entries.len() && i != at ==> after[i] == entries[i]);
    assert(has_id(after, info.id));
    if other != info.id {
        if has_id(entries, other) {
            let i = index_of(entries, other);
            assert(after[i].id == other);
            assert(has_id(after, other));
            let j = index_of(after, other);
            assert(entries[j].id == other);
        }
        if has_id(after, other) {
            let j = index_of(after, other);
            assert(entries[j].id == other);
        }
    }
}

/// A table of rooms by their ids.
pub struct RoomTable {
    rooms: Vec<Room>,
}

impl RoomTable {
    /// The records of the rooms, in the order in which their ids first came in.
    pub closed spec fn entries(&self) -> Seq<RoomInfoView> {
        self.rooms.deep_view()
    }

    /// What holds of every table: no two of its rooms have the same id.
    pub open spec fn wf(&self) -> bool {
        distinct_ids(self.entries())
    }

    /// A table without rooms.
    pub fn new() -> (table: RoomTable)
        ensures
            table.wf(),
            table.entries() == Seq::<RoomInfoView>::empty(),
    {
        let table = RoomTable { rooms: Vec::new() };
        assert(table.rooms.deep_view() =~= Seq::<RoomInfoView>::empty());
        table
    }

    /// The number of rooms.
    pub fn len(&self) -> (n: usize)
        ensures
            n == self.entries().len(),
    {
        self.rooms.len()
    }

    /// Where the room with the id `id` stands, if there is one.
    fn find(&self, id: &String) -> (r: Option<usize>)
        ensures
            match r {
                Some(i) => i < self.rooms.len() && self.rooms[i as int]@.id == id@,
                None => !has_id(self.entries(), id@),
            },
    {
        let mut i: usize = 0;
        while i < self.rooms.len()
            invariant
                i <= self.rooms.len(),
                forall|j: int| 0 <= j < i ==> (#[trigger] self.rooms.deep_view()[j]).id != id@,
            decreases self.rooms.len() - i,
        {
            if self.rooms[i].info.id == *id {
                return Some(i);
            }
            i = i + 1;
        }
        None
    }

    /// The room with the id `id`, if the table has one.
    pub fn get(&self, id: &String) -> (r: Option<&Room>)
        requires
            self.wf(),
        ensures
            r is Some <==> has_id(self.entries(), id@),
            r matches Some(room) ==> room@ == room_of(self.entries(), id@),
    {
        match self.find(id) {
            Some(i) => {
                assert(self.entries()[i as int].id == id@);
                Some(&self.rooms[i])
            },
            None => None,
        }
    }

    /// Puts `room` under its id, in the place of the room that was there
    /// if there was one.
    pub fn insert(&mut self, room: Room)
        requires
            old(self).wf(),
        ensures
            final(self).wf(),
            final(self).entries() == inserted(old(self).entries(), room@),
    {
        proof {
            lemma_inserted(self.entries(), room@, room@.id);
        }
        let ghost before = self.entries();
        match self.find(&room.info.id) {
            Some(i) => {
                assert(before[i as int].id == room@.id);
                self.rooms.set(i, room);
            },
            None => {
                self.rooms.push(room);
            },
        }
        assert(self.rooms.deep_view() =~= inserted(before, room@));
    }

    /// The ids of the rooms, in the order of the table.
    pub fn ids(&self) -> (ids: Vec<String>)
        ensures
            ids.deep_view() == ids_of(self.entries()),
    {
        let mut ids: Vec<String> = Vec::new();
        let mut i: usize = 0;
        while i < self.rooms.len()
            invariant
                i <= self.rooms.len(),
                ids.deep_view() =~= ids_of(self.rooms.deep_view()).take(i as int),
            decreases self.rooms.len() - i,
        {
            let ghost before = ids.deep_view();
            let id = self.rooms[i].info.id.clone();
            assert(id@ == ids_of(self.rooms.deep_view())[i as int]);
            ids.push(id);
            assert(ids.deep_view() =~= before.push(id@));
            i = i + 1;
        }
        assert(ids.deep_view() =~= ids_of(self.entries()));
        ids
    }
}

} // verus!
