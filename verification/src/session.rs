//! The session of a node: what it knows and how it answers a packet.
//!
//! A session does no input or output. Whoever runs it hands it the
//! datagrams that arrive and sends the datagrams that it makes.

use vstd::prelude::*;
use vstd::string::StringExecFns;
use vstd::utf8::{encode_utf8, is_ascii_chars_encode_utf8};

use crate::codec::{Decode, DecodeError, Encode, RoundTrip};
use crate::packet::{
    Message, MessageView, PacketKind, RoomInfo, RoomInfoView, RoomList, RoomListView,
};
use crate::room::{
    distinct_ids, has_id, ids_of, index_of, inserted, lemma_inserted, room_of, Room, RoomTable,
};
use crate::text::lemma_utf8_of_joined;
use crate::var::Var;
use crate::varint::{varint_bytes, varint_parse};

verus! {

/// A packet on its way to a peer.
#[derive(Debug, Clone, PartialEq, Eq)]
pub struct Datagram<A> {
    /// The address that it goes to.
    pub to: A,
    /// The number of its kind, then its payload.
    pub bytes: Vec<u8>,
}

/// What a node notes down when it drops a datagram or cannot answer it.
#[derive(Debug, Clone, PartialEq, Eq)]
pub enum Diagnostic {
    /// The bytes do not hold what they should; the error says why.
    Malformed(DecodeError),
    /// A peer asked for a room that this node does not own.
    UnknownRoom(String),
    /// The kind is reserved: nothing is done with it yet.
    Unimplemented(PacketKind),
    /// No kind goes by the number that the datagram starts with.
    Unrecognized(u16),
}

/// The model of a `Diagnostic`.
pub enum DiagnosticView {
    Malformed(DecodeError),
    UnknownRoom(Seq<char>),
    Unimplemented(PacketKind),
    Unrecognized(u16),
}

impl View for Diagnostic {
    type V = DiagnosticView;

    open spec fn view(&self) -> DiagnosticView {
        match self {
            Diagnostic::Malformed(e) => DiagnosticView::Malformed(*e),
            Diagnostic::UnknownRoom(id) => DiagnosticView::UnknownRoom(id@),
            Diagnostic::Unimplemented(kind) => DiagnosticView::Unimplemented(*kind),
            Diagnostic::Unrecognized(number) => DiagnosticView::Unrecognized(*number),
        }
    }
}

/// What came of a datagram: the packets to send in answer, the message to
/// show to the user, and what there is to note down.
#[derive(Debug, Clone, PartialEq, Eq)]
pub struct Handled<A> {
    pub replies: Vec<Datagram<A>>,
    pub message: Option<Message>,
    pub diagnostic: Option<Diagnostic>,
}

impl<A> Handled<A> {
    /// Whether the answer is `packets`, in that order and all of them to
    /// `to`, and nothing else came of the datagram.
    pub open spec fn replied(&self, to: A, packets: Seq<Seq<u8>>) -> bool {
        &&& self.replies@.len() == packets.len()
        &&& forall|i: int|
            0 <= i < packets.len() ==> (#[trigger] self.replies@[i]).to == to
                && self.replies@[i].bytes@ == packets[i]
        &&& self.message is None
        &&& self.diagnostic is None
    }

    /// Whether `message` is handed to the user and nothing else came of the
    /// datagram.
    pub open spec fn delivered(&self, message: MessageView) -> bool {
        &&& self.replies@.len() == 0
        &&& self.message matches Some(m) && m@ == message
        &&& self.diagnostic is None
    }

    /// Whether `diagnostic` is noted down and nothing else came of the
    /// datagram.
    pub open spec fn noted(&self, diagnostic: DiagnosticView) -> bool {
        &&& self.replies@.len() == 0
        &&& self.message is None
        &&& self.diagnostic matches Some(d) && d@ == diagnostic
    }

    /// Whether nothing at all came of the datagram.
    pub open spec fn silent(&self) -> bool {
        &&& self.replies@.len() == 0
        &&& self.message is None
        &&& self.diagnostic is None
    }

    fn reply(datagram: Datagram<A>) -> (out: Handled<A>)
        ensures
            out.replied(datagram.to, seq![datagram.bytes@]),
    {
        let mut replies = Vec::new();
        replies.push(datagram);
        Handled { replies, message: None, diagnostic: None }
    }

    fn note(diagnostic: Diagnostic) -> (out: Handled<A>)
        ensures
            out.noted(diagnostic@),
    {
        Handled { replies: Vec::new(), message: None, diagnostic: Some(diagnostic) }
    }
}

/// The bytes of a packet: the number of its kind as a variable-length
/// integer of 16 bits, then the payload, with nothing around them.
pub open spec fn packet_bytes(kind: PacketKind, payload: Seq<u8>) -> Seq<u8> {
    varint_bytes(kind.opcode() as nat) + payload
}

/// The room that a node owns from its start, made from the name of its user.
pub open spec fn own_room(username: Seq<char>) -> RoomInfoView {
    RoomInfoView {
        id: username + "_owned_room"@,
        title: username + "'s Bombass Owned Room"@,
        short_about: "An automatically-created room for testing."@,
        long_about: ""@,
    }
}

/// Whether a user's name is short enough for the texts that are made from
/// it: the longest of them adds 21 bytes, and has to fit a length of 32 bits.
pub open spec fn name_fits(username: Seq<char>) -> bool {
    encode_utf8(username).len() + 21 <= u32::MAX
}

/// The packets that ask for the rooms with the ids `ids`, one packet for
/// each id, in their order.
pub open spec fn room_requests(ids: Seq<Seq<char>>) -> Seq<Seq<u8>> {
    Seq::new(
        ids.len(),
        |i: int| packet_bytes(PacketKind::RequestRoomInfo, <String as Encode>::wire(ids[i])),
    )
}

/// With a name that fits, the room of the node and the name itself can be
/// written.
pub proof fn lemma_name_fits(username: Seq<char>)
    requires
        name_fits(username),
    ensures
        <RoomInfo as Encode>::encodable(own_room(username)),
        <String as Encode>::encodable(username),
{
    reveal_strlit("_owned_room");
    reveal_strlit("'s Bombass Owned Room");
    reveal_strlit("An automatically-created room for testing.");
    reveal_strlit("");
    let room = own_room(username);
    is_ascii_chars_encode_utf8("_owned_room"@);
    is_ascii_chars_encode_utf8("'s Bombass Owned Room"@);
    is_ascii_chars_encode_utf8("An automatically-created room for testing."@);
    is_ascii_chars_encode_utf8(""@);
    lemma_utf8_of_joined(username, "_owned_room"@);
    lemma_utf8_of_joined(username, "'s Bombass Owned Room"@);
}

/// The session of a node, with peers at addresses of type `A`.
pub struct App<A> {
    username: String,
    connect: Option<A>,
    owned_rooms: RoomTable,
    remote_rooms: RoomTable,
    other: Option<A>,
}

impl<A: Copy> App<A> {
    /// The name of the user.
    pub closed spec fn username(&self) -> Seq<char> {
        self.username@
    }

    /// The address to get in touch with at the start, if there is one.
    pub closed spec fn connect(&self) -> Option<A> {
        self.connect
    }

    /// The rooms that the node owns: it alone says what they are.
    pub closed spec fn owned(&self) -> Seq<RoomInfoView> {
        self.owned_rooms.entries()
    }

    /// What the node has heard of the rooms of its peers. It may be out of
    /// date.
    pub closed spec fn remote(&self) -> Seq<RoomInfoView> {
        self.remote_rooms.entries()
    }

    /// The peer that the node is in touch with: the sender of the last
    /// datagram that came in.
    pub closed spec fn peer(&self) -> Option<A> {
        self.other
    }

    /// What holds of every session: in each table no two rooms have the
    /// same id, and whatever the node may have to send of its own can be
    /// written.
    pub open spec fn wf(&self) -> bool {
        &&& distinct_ids(self.owned())
        &&& distinct_ids(self.remote())
        &&& name_fits(self.username())
        &&& self.owned().len() <= u32::MAX
        &&& forall|i: int|
            0 <= i < self.owned().len() ==> <RoomInfo as Encode>::encodable(
                #[trigger] self.owned()[i],
            )
    }

    /// Whether two sessions differ in nothing but their peer and what they
    /// have heard of the rooms of their peers.
    pub open spec fn same_self(&self, other: &App<A>) -> bool {
        &&& self.username() == other.username()
        &&& self.connect() == other.connect()
        &&& self.owned() == other.owned()
    }

    /// Whether a node that was in the state `pre` and took a packet of the
    /// kind `kind` with the payload `payload` from `from` is in the state
    /// `post` and has `out` to show for it.
    ///
    /// The sender becomes the peer. What else happens goes by the kind.
    /// Bytes behind the payload are not looked at.
    pub open spec fn answers(
        pre: &App<A>,
        post: &App<A>,
        from: A,
        kind: PacketKind,
        payload: Seq<u8>,
        out: &Handled<A>,
    ) -> bool {
        &&& post.peer() == Some(from)
        &&& post.same_self(pre)
        &&& match kind {
            PacketKind::Ping => {
                &&& post.remote() == pre.remote()
                &&& out.replied(from, seq![packet_bytes(PacketKind::Pong, Seq::empty())])
            },
            PacketKind::Pong => {
                &&& post.remote() == pre.remote()
                &&& out.replied(
                    from,
                    seq![packet_bytes(PacketKind::RequestRoomList, Seq::empty())],
                )
            },
            PacketKind::RequestRoomList => {
                &&& post.remote() == pre.remote()
                &&& out.replied(
                    from,
                    seq![
                        packet_bytes(
                            PacketKind::RoomList,
                            <RoomList as Encode>::wire(RoomListView { room_ids: ids_of(pre.owned()) }),
                        ),
                    ],
                )
            },
            PacketKind::RoomList => {
                &&& post.remote() == pre.remote()
                &&& match <RoomList as Decode>::parse(payload) {
                    Ok((list, _)) => out.replied(from, room_requests(list.room_ids)),
                    Err(e) => out.noted(DiagnosticView::Malformed(e)),
                }
            },
            PacketKind::RequestRoomInfo => {
                &&& post.remote() == pre.remote()
                &&& match <String as Decode>::parse(payload) {
                    Ok((id, _)) => if has_id(pre.owned(), id) {
                        out.replied(
                            from,
                            seq![
                                packet_bytes(
                                    PacketKind::RoomInfo,
                                    <RoomInfo as Encode>::wire(room_of(pre.owned(), id)),
                                ),
                            ],
                        )
                    } else {
                        out.noted(DiagnosticView::UnknownRoom(id))
                    },
                    Err(e) => out.noted(DiagnosticView::Malformed(e)),
                }
            },
            PacketKind::RoomInfo => match <RoomInfo as Decode>::parse(payload) {
                Ok((info, _)) => post.remote() == inserted(pre.remote(), info) && out.silent(),
                Err(e) => post.remote() == pre.remote() && out.noted(
                    DiagnosticView::Malformed(e),
                ),
            },
            PacketKind::Message => {
                &&& post.remote() == pre.remote()
                &&& match <Message as Decode>::parse(payload) {
                    Ok((message, _)) => out.delivered(message),
                    Err(e) => out.noted(DiagnosticView::Malformed(e)),
                }
            },
            PacketKind::RequestUserInfo | PacketKind::UserInfo => {
                &&& post.remote() == pre.remote()
                &&& out.noted(DiagnosticView::Unimplemented(kind))
            },
        }
    }

    /// Whether `username` is short enough for a session.
    pub fn accepts_name(username: &str) -> (r: bool)
        ensures
            r == name_fits(username@),
    {
        username.as_bytes().len() <= u32::MAX as usize - 21
    }

    /// A session for the user `username` that has heard of no room and has
    /// no peer, started: it owns its own room, and where `connect` holds an
    /// address, the second part of the result is a `Ping` to send there.
    pub fn new(username: String, connect: Option<A>) -> (r: (App<A>, Option<Datagram<A>>))
        requires
            name_fits(username@),
        ensures
            r.0.wf(),
            r.0.username() == username@,
            r.0.connect() == connect,
            r.0.peer() is None,
            r.0.remote() == Seq::<RoomInfoView>::empty(),
            r.0.owned() == seq![own_room(username@)],
            Self::greets(connect, r.1),
    {
        let mut app = App {
            username,
            connect,
            owned_rooms: RoomTable::new(),
            remote_rooms: RoomTable::new(),
            other: None,
        };
        let ping = app.startup();
        assert(app.owned() =~= seq![own_room(app.username())]);
        (app, ping)
    }

    /// Whether `ping` is what a node sends at its start: a `Ping` to the
    /// address in `connect`, or nothing where there is none.
    pub open spec fn greets(connect: Option<A>, ping: Option<Datagram<A>>) -> bool {
        match connect {
            Some(addr) => ping matches Some(d) && d.to == addr && d.bytes@ == packet_bytes(
                PacketKind::Ping,
                Seq::empty(),
            ),
            None => ping is None,
        }
    }

    /// Starts the node: puts its own room among the rooms that it owns and
    /// gives the `Ping` for the address to get in touch with, if there is one.
    pub fn startup(&mut self) -> (ping: Option<Datagram<A>>)
        requires
            old(self).wf(),
            old(self).owned().len() < u32::MAX,
        ensures
            final(self).wf(),
            final(self).same_self_but_owned(old(self)),
            final(self).owned() == inserted(old(self).owned(), own_room(old(self).username())),
            Self::greets(old(self).connect(), ping),
    {
        let ping = match self.connect {
            Some(connect) => Some(self.send_empty_packet(connect, PacketKind::Ping)),
            None => None,
        };
        let mut id = self.username.clone();
        id.append("_owned_room");
        let mut title = self.username.clone();
        title.append("'s Bombass Owned Room");
        let room = Room {
            info: RoomInfo {
                id,
                title,
                short_about: String::from_str("An automatically-created room for testing."),
                long_about: String::from_str(""),
            },
        };
        proof {
            lemma_name_fits(self.username@);
            lemma_inserted(self.owned(), room@, room@.id);
            assert(room@ == own_room(self.username@));
        }
        self.owned_rooms.insert(room);
        ping
    }

    /// Whether two sessions differ in nothing but the rooms that they own.
    pub open spec fn same_self_but_owned(&self, other: &App<A>) -> bool {
        &&& self.username() == other.username()
        &&& self.connect() == other.connect()
        &&& self.remote() == other.remote()
        &&& self.peer() == other.peer()
    }

    /// What the node does with a packet of the kind `kind` that came from
    /// `from` with the payload at the head of `reader`.
    pub fn on_packet(&mut self, from: A, kind: PacketKind, reader: &[u8]) -> (out: Handled<A>)
        requires
            old(self).wf(),
        ensures
            final(self).wf(),
            Self::answers(old(self), final(self), from, kind, reader@, &out),
    {
        let mut reader = reader;
        let ghost payload = reader@;
        self.other = Some(from);
        match kind {
            PacketKind::Ping => Handled::reply(self.send_empty_packet(from, PacketKind::Pong)),
            PacketKind::Pong => Handled::reply(
                self.send_empty_packet(from, PacketKind::RequestRoomList),
            ),
            PacketKind::RequestRoomList => {
                let room_list = self.build_room_list();
                Handled::reply(self.send_packet(from, PacketKind::RoomList, &room_list))
            },
            PacketKind::RoomList => {
                proof {
                    <RoomList as RoundTrip>::lemma_parsed_encodable(payload);
                }
                match RoomList::decode(&mut reader) {
                    Ok(room_list) => Handled {
                        replies: self.request_rooms(from, &room_list.room_ids),
                        message: None,
                        diagnostic: None,
                    },
                    Err(e) => Handled::note(Diagnostic::Malformed(e)),
                }
            },
            PacketKind::RequestRoomInfo => match String::decode(&mut reader) {
                Ok(room_id) => match self.owned_rooms.get(&room_id) {
                    Some(room) => {
                        assert(room@ == self.owned()[index_of(self.owned(), room_id@)]);
                        Handled::reply(self.send_packet(from, PacketKind::RoomInfo, &room.info))
                    },
                    None => Handled::note(Diagnostic::UnknownRoom(room_id)),
                },
                Err(e) => Handled::note(Diagnostic::Malformed(e)),
            },
            PacketKind::RoomInfo => match RoomInfo::decode(&mut reader) {
                Ok(info) => {
                    proof {
                        lemma_inserted(self.remote(), info@, info@.id);
                    }
                    self.remote_rooms.insert(Room { info });
                    Handled { replies: Vec::new(), message: None, diagnostic: None }
                },
                Err(e) => Handled::note(Diagnostic::Malformed(e)),
            },
            PacketKind::Message => match Message::decode(&mut reader) {
                Ok(message) => Handled {
                    replies: Vec::new(),
                    message: Some(message),
                    diagnostic: None,
                },
                Err(e) => Handled::note(Diagnostic::Malformed(e)),
            },
            PacketKind::RequestUserInfo => Handled::note(
                Diagnostic::Unimplemented(PacketKind::RequestUserInfo),
            ),
            PacketKind::UserInfo => Handled::note(Diagnostic::Unimplemented(PacketKind::UserInfo)),
        }
    }

    /// Whether two sessions differ in nothing but their peer.
    pub open spec fn same_but_peer(&self, other: &App<A>) -> bool {
        &&& self.same_self(other)
        &&& self.remote() == other.remote()
    }

    /// What the node does with a datagram that came from `from`.
    ///
    /// Whatever the datagram holds, its sender becomes the peer. A datagram
    /// that does not start with the number of a kind is dropped: it changes
    /// nothing else, and the diagnostic says what was wrong. Any other is
    /// taken as the packet of that kind, with what follows the number as
    /// its payload.
    pub fn on_datagram(&mut self, from: A, datagram: &[u8]) -> (out: Handled<A>)
        requires
            old(self).wf(),
        ensures
            final(self).wf(),
            final(self).peer() == Some(from),
            match varint_parse(datagram@, 2) {
                Err(e) => final(self).same_but_peer(old(self)) && out.noted(
                    DiagnosticView::Malformed(e),
                ),
                Ok((number, n)) => match PacketKind::of_opcode(number as u16) {
                    Err(number) => final(self).same_but_peer(old(self)) && out.noted(
                        DiagnosticView::Unrecognized(number),
                    ),
                    Ok(kind) => Self::answers(
                        old(self),
                        final(self),
                        from,
                        kind,
                        datagram@.skip(n as int),
                        &out,
                    ),
                },
            },
    {
        self.other = Some(from);
        let mut reader = datagram;
        let number = match Var::<u16>::decode(&mut reader) {
            Ok(number) => number.0,
            Err(e) => {
                return Handled::note(Diagnostic::Malformed(e));
            },
        };
        match PacketKind::try_from(number) {
            Ok(kind) => self.on_packet(from, kind, reader),
            Err(number) => Handled::note(Diagnostic::Unrecognized(number)),
        }
    }

    /// The list of the rooms that the node owns, in the order of its table.
    pub fn build_room_list(&self) -> (list: RoomList)
        ensures
            list@ == (RoomListView { room_ids: ids_of(self.owned()) }),
    {
        RoomList { room_ids: self.owned_rooms.ids() }
    }

    /// The packet of the kind `kind` with the payload `payload`, for `addr`.
    pub fn send_packet<T: Encode>(&self, addr: A, kind: PacketKind, payload: &T) -> (datagram:
        Datagram<A>)
        requires
            T::encodable(payload.deep_view()),
        ensures
            datagram.to == addr,
            datagram.bytes@ == packet_bytes(kind, T::wire(payload.deep_view())),
    {
        let mut buf = Vec::new();
        Var(u16::from(kind)).encode(&mut buf);
        payload.encode(&mut buf);
        Datagram { to: addr, bytes: buf }
    }

    /// The packet of the kind `kind` without a payload, for `addr`.
    pub fn send_empty_packet(&self, addr: A, kind: PacketKind) -> (datagram: Datagram<A>)
        ensures
            datagram.to == addr,
            datagram.bytes@ == packet_bytes(kind, Seq::empty()),
    {
        let mut buf = Vec::new();
        Var(u16::from(kind)).encode(&mut buf);
        Datagram { to: addr, bytes: buf }
    }

    /// The packets that ask `addr` for each of the rooms `ids`.
    fn request_rooms(&self, addr: A, ids: &Vec<String>) -> (requests: Vec<Datagram<A>>)
        requires
            forall|i: int|
                0 <= i < ids.len() ==> <String as Encode>::encodable(#[trigger] ids.deep_view()[i]),
        ensures
            requests@.len() == ids.len(),
            forall|i: int|
                0 <= i < ids.len() ==> (#[trigger] requests@[i]).to == addr && requests@[i].bytes@
                    == room_requests(ids.deep_view())[i],
    {
        let mut requests: Vec<Datagram<A>> = Vec::new();
        let mut i: usize = 0;
        while i < ids.len()
            invariant
                i <= ids.len(),
                requests@.len() == i,
                forall|j: int|
                    0 <= j < ids.len() ==> <String as Encode>::encodable(
                        #[trigger] ids.deep_view()[j],
                    ),
                forall|j: int|
                    0 <= j < i ==> (#[trigger] requests@[j]).to == addr && requests@[j].bytes@
                        == room_requests(ids.deep_view())[j],
            decreases ids.len() - i,
        {
            assert(ids[i as int].deep_view() == ids.deep_view()[i as int]);
            requests.push(self.send_packet(addr, PacketKind::RequestRoomInfo, &ids[i]));
            i = i + 1;
        }
        requests
    }

    /// The packet that carries what the user wrote to the peer. Without a
    /// peer there is no packet: what was written is dropped.
    pub fn send_message(&self, contents: String) -> (datagram: Option<Datagram<A>>)
        requires
            self.wf(),
            <String as Encode>::encodable(contents@),
        ensures
            match self.peer() {
                Some(peer) => datagram matches Some(d) && d.to == peer && d.bytes@ == packet_bytes(
                    PacketKind::Message,
                    <Message as Encode>::wire(
                        MessageView { sender: self.username(), contents: contents@ },
                    ),
                ),
                None => datagram is None,
            },
    {
        match self.other {
            Some(other) => {
                proof {
                    lemma_name_fits(self.username@);
                }
                let message = Message { sender: self.username.clone(), contents };
                Some(self.send_packet(other, PacketKind::Message, &message))
            },
            None => None,
        }
    }

    /// The peer that the node is in touch with.
    pub fn current_peer(&self) -> (peer: Option<A>)
        ensures
            peer == self.peer(),
    {
        self.other
    }

    /// The name of the user.
    pub fn user_name(&self) -> (name: &String)
        ensures
            name@ == self.username(),
    {
        &self.username
    }

    /// The rooms that the node owns.
    pub fn owned_rooms(&self) -> (table: &RoomTable)
        ensures
            table.entries() == self.owned(),
    {
        &self.owned_rooms
    }

    /// What the node has heard of the rooms of its peers.
    pub fn remote_rooms(&self) -> (table: &RoomTable)
        ensures
            table.entries() == self.remote(),
    {
        &self.remote_rooms
    }
}

} // verus!
