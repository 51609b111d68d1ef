//! The catalogue of packets: the kinds, each with its number, and the
//! records that travel as payloads. A record is written field by field in the
//! order of its declaration, with nothing between the fields.

use vstd::prelude::*;

use crate::codec::{
    decode_at, lemma_parse_at_encodable, lemma_parse_at_of_wire, lemma_parse_at_within,
    lemma_regroup, parse_at, Decode, DecodeError, Encode, Parsed, RoundTrip,
};

verus! {

/// The kinds of packets. A packet starts with the number of its kind.
#[derive(Debug, Clone, Copy, PartialEq, Eq, Structural)]
pub enum PacketKind {
    /// Asks a peer whether it is there.
    Ping,
    /// The answer to `Ping`.
    Pong,
    /// Reserved: asks for a user's record.
    RequestUserInfo,
    /// Asks for the record of the room whose id is the payload.
    RequestRoomInfo,
    /// Asks for the ids of the rooms that the peer owns.
    RequestRoomList,
    /// Reserved: carries a user's record.
    UserInfo,
    /// Carries the record of a room.
    RoomInfo,
    /// Carries the ids of the rooms that the sender owns.
    RoomList,
    /// Carries a chat message.
    Message,
}

impl PacketKind {
    /// The number by which the kind goes on the wire.
    pub open spec fn opcode(self) -> u16 {
        match self {
            PacketKind::Ping => 0,
            PacketKind::Pong => 1,
            PacketKind::RequestUserInfo => 2,
            PacketKind::RequestRoomInfo => 3,
            PacketKind::RequestRoomList => 4,
            PacketKind::UserInfo => 5,
            PacketKind::RoomInfo => 6,
            PacketKind::RoomList => 7,
            PacketKind::Message => 8,
        }
    }

    /// The kind that goes by `number`, or the number back where no kind does.
    pub open spec fn of_opcode(number: u16) -> Result<PacketKind, u16> {
        if number == 0 {
            Ok(PacketKind::Ping)
        } else if number == 1 {
            Ok(PacketKind::Pong)
        } else if number == 2 {
            Ok(PacketKind::RequestUserInfo)
        } else if number == 3 {
            Ok(PacketKind::RequestRoomInfo)
        } else if number == 4 {
            Ok(PacketKind::RequestRoomList)
        } else if number == 5 {
            Ok(PacketKind::UserInfo)
        } else if number == 6 {
            Ok(PacketKind::RoomInfo)
        } else if number == 7 {
            Ok(PacketKind::RoomList)
        } else if number == 8 {
            Ok(PacketKind::Message)
        } else {
            Err(number)
        }
    }

    /// The number of a kind is the number of that kind and of no other, and
    /// no number above 8 is the number of a kind.
    pub proof fn lemma_opcodes(kind: PacketKind, number: u16)
        ensures
            PacketKind::of_opcode(kind.opcode()) == Ok::<PacketKind, u16>(kind),
            PacketKind::of_opcode(number) == Ok::<PacketKind, u16>(kind) <==> number
                == kind.opcode(),
            PacketKind::of_opcode(number) is Err <==> number > 8,
    {
    }
}

impl From<PacketKind> for u16 {
    fn from(kind: PacketKind) -> (number: u16) {
        match kind {
            PacketKind::Ping => 0,
            PacketKind::Pong => 1,
            PacketKind::RequestUserInfo => 2,
            PacketKind::RequestRoomInfo => 3,
            PacketKind::RequestRoomList => 4,
            PacketKind::UserInfo => 5,
            PacketKind::RoomInfo => 6,
            PacketKind::RoomList => 7,
            PacketKind::Message => 8,
        }
    }
}

impl vstd::std_specs::convert::FromSpecImpl<PacketKind> for u16 {
    open spec fn obeys_from_spec() -> bool {
        true
    }

    open spec fn from_spec(kind: PacketKind) -> u16 {
        kind.opcode()
    }
}

impl TryFrom<u16> for PacketKind {
    /// The number that no kind goes by.
    type Error = u16;

    fn try_from(number: u16) -> (r: Result<PacketKind, u16>) {
        match number {
            0 => Ok(PacketKind::Ping),
            1 => Ok(PacketKind::Pong),
            2 => Ok(PacketKind::RequestUserInfo),
            3 => Ok(PacketKind::RequestRoomInfo),
            4 => Ok(PacketKind::RequestRoomList),
            5 => Ok(PacketKind::UserInfo),
            6 => Ok(PacketKind::RoomInfo),
            7 => Ok(PacketKind::RoomList),
            8 => Ok(PacketKind::Message),
            _ => Err(number),
        }
    }
}

impl vstd::std_specs::convert::TryFromSpecImpl<u16> for PacketKind {
    open spec fn obeys_try_from_spec() -> bool {
        true
    }

    open spec fn try_from_spec(number: u16) -> Result<PacketKind, u16> {
        PacketKind::of_opcode(number)
    }
}

/// What a peer tells about its user.
#[derive(Debug, Clone, PartialEq, Eq)]
pub struct UserInfo {
    /// Names the user among all users.
    pub id: String,
    pub username: String,
    pub about: String,
}

/// The model of a `UserInfo`: its fields as mathematical values.
pub struct UserInfoView {
    pub id: Seq<char>,
    pub username: Seq<char>,
    pub about: Seq<char>,
}

impl View for UserInfo {
    type V = UserInfoView;

    open spec fn view(&self) -> UserInfoView {
        UserInfoView {
            id: self.id.deep_view(),
            username: self.username.deep_view(),
            about: self.about.deep_view(),
        }
    }
}

impl DeepView for UserInfo {
    type V = UserInfoView;

    open spec fn deep_view(&self) -> UserInfoView {
        UserInfoView {
            id: self.id.deep_view(),
            username: self.username.deep_view(),
            about: self.about.deep_view(),
        }
    }
}

impl Encode for UserInfo {
    /// Every field has to be encodable.
    open spec fn encodable(v: UserInfoView) -> bool {
        &&& <String as Encode>::encodable(v.id)
        &&& <String as Encode>::encodable(v.username)
        &&& <String as Encode>::encodable(v.about)
    }

    /// The bytes of the fields, in the order of their declaration.
    open spec fn wire(v: UserInfoView) -> Seq<u8> {
        <String as Encode>::wire(v.id)
            + <String as Encode>::wire(v.username)
            + <String as Encode>::wire(v.about)
    }

    fn encode(&self, writer: &mut Vec<u8>) {
        self.id.encode(writer);
        self.username.encode(writer);
        self.about.encode(writer);
        assert(writer@ =~= old(writer)@ + Self::wire(self.deep_view()));
    }
}

impl Decode for UserInfo {
    /// The fields, each read behind the one before it.
    open spec fn parse(bytes: Seq<u8>) -> Parsed<UserInfoView> {
        match parse_at::<String>(bytes, 0) {
            Err(e) => Err(e),
            Ok((id, at_0)) => match parse_at::<String>(bytes, at_0) {
                Err(e) => Err(e),
                Ok((username, at_1)) => match parse_at::<String>(bytes, at_1) {
                    Err(e) => Err(e),
                    Ok((about, at_2)) => Ok((UserInfoView { id, username, about }, at_2)),
                },
            },
        }
    }

    proof fn lemma_parse_within(bytes: Seq<u8>) {
        lemma_parse_at_within::<String>(bytes, 0);
        if let Ok((id, at_0)) = parse_at::<String>(bytes, 0) {
            lemma_parse_at_within::<String>(bytes, at_0);
            if let Ok((username, at_1)) = parse_at::<String>(bytes, at_0) {
                lemma_parse_at_within::<String>(bytes, at_1);
            }
        }
    }

    fn decode(reader: &mut &[u8]) -> (r: Result<Self, DecodeError>) {
        let ghost bytes = reader@;
        let ghost at: nat = 0;
        assert(bytes.skip(0) =~= bytes);
        let id = decode_at::<String>(reader, Ghost(bytes), Ghost(at))?;
        let ghost at = parse_at::<String>(bytes, at)->Ok_0.1;
        let username = decode_at::<String>(reader, Ghost(bytes), Ghost(at))?;
        let ghost at = parse_at::<String>(bytes, at)->Ok_0.1;
        let about = decode_at::<String>(reader, Ghost(bytes), Ghost(at))?;
        Ok(UserInfo { id, username, about })
    }
}

impl RoundTrip for UserInfo {
    proof fn lemma_round_trip(v: UserInfoView, rest: Seq<u8>) {
        let w_0 = <String as Encode>::wire(v.id);
        let w_1 = <String as Encode>::wire(v.username);
        let w_2 = <String as Encode>::wire(v.about);
        let behind_1 = w_2 + rest;
        let behind_0 = w_1 + behind_1;
        let bytes = Self::wire(v) + rest;
        lemma_regroup(w_0 + w_1, w_2, rest);
        lemma_regroup(w_0, w_1, behind_1);
        assert(bytes.skip(0) =~= bytes);
        lemma_parse_at_of_wire::<String>(bytes, 0, v.id, behind_0);
        let at_0 = w_0.len();
        lemma_parse_at_of_wire::<String>(bytes, at_0, v.username, behind_1);
        let at_1 = at_0 + w_1.len();
        lemma_parse_at_of_wire::<String>(bytes, at_1, v.about, rest);
    }

    proof fn lemma_parsed_encodable(bytes: Seq<u8>) {
        lemma_parse_at_encodable::<String>(bytes, 0);
        if let Ok((id, at_0)) = parse_at::<String>(bytes, 0) {
            lemma_parse_at_encodable::<String>(bytes, at_0);
            if let Ok((username, at_1)) = parse_at::<String>(bytes, at_0) {
                lemma_parse_at_encodable::<String>(bytes, at_1);
            }
        }
    }
}

/// What a peer tells about a room.
#[derive(Debug, Clone, PartialEq, Eq)]
pub struct RoomInfo {
    /// Names the room among all rooms.
    pub id: String,
    pub title: String,
    pub short_about: String,
    pub long_about: String,
}

/// The model of a `RoomInfo`: its fields as mathematical values.
pub struct RoomInfoView {
    pub id: Seq<char>,
    pub title: Seq<char>,
    pub short_about: Seq<char>,
    pub long_about: Seq<char>,
}

impl View for RoomInfo {
    type V = RoomInfoView;

    open spec fn view(&self) -> RoomInfoView {
        RoomInfoView {
            id: self.id.deep_view(),
            title: self.title.deep_view(),
            short_about: self.short_about.deep_view(),
            long_about: self.long_about.deep_view(),
        }
    }
}

impl DeepView for RoomInfo {
    type V = RoomInfoView;

    open spec fn deep_view(&self) -> RoomInfoView {
        RoomInfoView {
            id: self.id.deep_view(),
            title: self.title.deep_view(),
            short_about: self.short_about.deep_view(),
            long_about: self.long_about.deep_view(),
        }
    }
}

impl Encode for RoomInfo {
    /// Every field has to be encodable.
    open spec fn encodable(v: RoomInfoView) -> bool {
        &&& <String as Encode>::encodable(v.id)
        &&& <String as Encode>::encodable(v.title)
        &&& <String as Encode>::encodable(v.short_about)
        &&& <String as Encode>::encodable(v.long_about)
    }

    /// The bytes of the fields, in the order of their declaration.
    open spec fn wire(v: RoomInfoView) -> Seq<u8> {
        <String as Encode>::wire(v.id)
            + <String as Encode>::wire(v.title)
            + <String as Encode>::wire(v.short_about)
            + <String as Encode>::wire(v.long_about)
    }

    fn encode(&self, writer: &mut Vec<u8>) {
        self.id.encode(writer);
        self.title.encode(writer);
        self.short_about.encode(writer);
        self.long_about.encode(writer);
        assert(writer@ =~= old(writer)@ + Self::wire(self.deep_view()));
    }
}

impl Decode for RoomInfo {
    /// The fields, each read behind the one before it.
    open spec fn parse(bytes: Seq<u8>) -> Parsed<RoomInfoView> {
        match parse_at::<String>(bytes, 0) {
            Err(e) => Err(e),
            Ok((id, at_0)) => match parse_at::<String>(bytes, at_0) {
                Err(e) => Err(e),
                Ok((title, at_1)) => match parse_at::<String>(bytes, at_1) {
                    Err(e) => Err(e),
                    Ok((short_about, at_2)) => match parse_at::<String>(bytes, at_2) {
                        Err(e) => Err(e),
                        Ok((long_about, at_3)) => Ok((RoomInfoView { id, title, short_about, long_about }, at_3)),
                    },
                },
            },
        }
    }

    proof fn lemma_parse_within(bytes: Seq<u8>) {
        lemma_parse_at_within::<String>(bytes, 0);
        if let Ok((id, at_0)) = parse_at::<String>(bytes, 0) {
            lemma_parse_at_within::<String>(bytes, at_0);
            if let Ok((title, at_1)) = parse_at::<String>(bytes, at_0) {
                lemma_parse_at_within::<String>(bytes, at_1);
                if let Ok((short_about, at_2)) = parse_at::<String>(bytes, at_1) {
                    lemma_parse_at_within::<String>(bytes, at_2);
                }
            }
        }
    }

    fn decode(reader: &mut &[u8]) -> (r: Result<Self, DecodeError>) {
        let ghost bytes = reader@;
        let ghost at: nat = 0;
        assert(bytes.skip(0) =~= bytes);
        let id = decode_at::<String>(reader, Ghost(bytes), Ghost(at))?;
        let ghost at = parse_at::<String>(bytes, at)->Ok_0.1;
        let title = decode_at::<String>(reader, Ghost(bytes), Ghost(at))?;
        let ghost at = parse_at::<String>(bytes, at)->Ok_0.1;
        let short_about = decode_at::<String>(reader, Ghost(bytes), Ghost(at))?;
        let ghost at = parse_at::<String>(bytes, at)->Ok_0.1;
        let long_about = decode_at::<String>(reader, Ghost(bytes), Ghost(at))?;
        Ok(RoomInfo { id, title, short_about, long_about })
    }
}

impl RoundTrip for RoomInfo {
    proof fn lemma_round_trip(v: RoomInfoView, rest: Seq<u8>) {
        let w_0 = <String as Encode>::wire(v.id);
        let w_1 = <String as Encode>::wire(v.title);
        let w_2 = <String as Encode>::wire(v.short_about);
        let w_3 = <String as Encode>::wire(v.long_about);
        let behind_2 = w_3 + rest;
        let behind_1 = w_2 + behind_2;
        let behind_0 = w_1 + behind_1;
        let bytes = Self::wire(v) + rest;
        lemma_regroup(w_0 + w_1 + w_2, w_3, rest);
        lemma_regroup(w_0 + w_1, w_2, behind_2);
        lemma_regroup(w_0, w_1, behind_1);
        assert(bytes.skip(0) =~= bytes);
        lemma_parse_at_of_wire::<String>(bytes, 0, v.id, behind_0);
        let at_0 = w_0.len();
        lemma_parse_at_of_wire::<String>(bytes, at_0, v.title, behind_1);
        let at_1 = at_0 + w_1.len();
        lemma_parse_at_of_wire::<String>(bytes, at_1, v.short_about, behind_2);
        let at_2 = at_1 + w_2.len();
        lemma_parse_at_of_wire::<String>(bytes, at_2, v.long_about, rest);
    }

    proof fn lemma_parsed_encodable(bytes: Seq<u8>) {
        lemma_parse_at_encodable::<String>(bytes, 0);
        if let Ok((id, at_0)) = parse_at::<String>(bytes, 0) {
            lemma_parse_at_encodable::<String>(bytes, at_0);
            if let Ok((title, at_1)) = parse_at::<String>(bytes, at_0) {
                lemma_parse_at_encodable::<String>(bytes, at_1);
                if let Ok((short_about, at_2)) = parse_at::<String>(bytes, at_1) {
                    lemma_parse_at_encodable::<String>(bytes, at_2);
                }
            }
        }
    }
}

/// The ids of the rooms that a peer owns.
#[derive(Debug, Clone, PartialEq, Eq)]
pub struct RoomList {
    pub room_ids: Vec<String>,
}

/// The model of a `RoomList`: its fields as mathematical values.
pub struct RoomListView {
    pub room_ids: Seq<Seq<char>>,
}

impl View for RoomList {
    type V = RoomListView;

    open spec fn view(&self) -> RoomListView {
        RoomListView {
            room_ids: self.room_ids.deep_view(),
        }
    }
}

impl DeepView for RoomList {
    type V = RoomListView;

    open spec fn deep_view(&self) -> RoomListView {
        RoomListView {
            room_ids: self.room_ids.deep_view(),
        }
    }
}

impl Encode for RoomList {
    /// Every field has to be encodable.
    open spec fn encodable(v: RoomListView) -> bool {
        &&& <Vec<String> as Encode>::encodable(v.room_ids)
    }

    /// The bytes of the fields, in the order of their declaration.
    open spec fn wire(v: RoomListView) -> Seq<u8> {
        <Vec<String> as Encode>::wire(v.room_ids)
    }

    fn encode(&self, writer: &mut Vec<u8>) {
        self.room_ids.encode(writer);
    }
}

impl Decode for RoomList {
    /// The fields, each read behind the one before it.
    open spec fn parse(bytes: Seq<u8>) -> Parsed<RoomListView> {
        match parse_at::<Vec<String>>(bytes, 0) {
            Err(e) => Err(e),
            Ok((room_ids, at_0)) => Ok((RoomListView { room_ids }, at_0)),
        }
    }

    proof fn lemma_parse_within(bytes: Seq<u8>) {
        lemma_parse_at_within::<Vec<String>>(bytes, 0);
    }

    fn decode(reader: &mut &[u8]) -> (r: Result<Self, DecodeError>) {
        let ghost bytes = reader@;
        let ghost at: nat = 0;
        assert(bytes.skip(0) =~= bytes);
        let room_ids = decode_at::<Vec<String>>(reader, Ghost(bytes), Ghost(at))?;
        Ok(RoomList { room_ids })
    }
}

impl RoundTrip for RoomList {
    proof fn lemma_round_trip(v: RoomListView, rest: Seq<u8>) {
        let w_0 = <Vec<String> as Encode>::wire(v.room_ids);
        let bytes = Self::wire(v) + rest;
        assert(bytes.skip(0) =~= bytes);
        lemma_parse_at_of_wire::<Vec<String>>(bytes, 0, v.room_ids, rest);
    }

    proof fn lemma_parsed_encodable(bytes: Seq<u8>) {
        lemma_parse_at_encodable::<Vec<String>>(bytes, 0);
    }
}

/// A chat message.
#[derive(Debug, Clone, PartialEq, Eq)]
pub struct Message {
    /// The name of the user who wrote it.
    pub sender: String,
    pub contents: String,
}

/// The model of a `Message`: its fields as mathematical values.
pub struct MessageView {
    pub sender: Seq<char>,
    pub contents: Seq<char>,
}

impl View for Message {
    type V = MessageView;

    open spec fn view(&self) -> MessageView {
        MessageView {
            sender: self.sender.deep_view(),
            contents: self.contents.deep_view(),
        }
    }
}

impl DeepView for Message {
    type V = MessageView;

    open spec fn deep_view(&self) -> MessageView {
        MessageView {
            sender: self.sender.deep_view(),
            contents: self.contents.deep_view(),
        }
    }
}

impl Encode for Message {
    /// Every field has to be encodable.
    open spec fn encodable(v: MessageView) -> bool {
        &&& <String as Encode>::encodable(v.sender)
        &&& <String as Encode>::encodable(v.contents)
    }

    /// The bytes of the fields, in the order of their declaration.
    open spec fn wire(v: MessageView) -> Seq<u8> {
        <String as Encode>::wire(v.sender)
            + <String as Encode>::wire(v.contents)
    }

    fn encode(&self, writer: &mut Vec<u8>) {
        self.sender.encode(writer);
        self.contents.encode(writer);
        assert(writer@ =~= old(writer)@ + Self::wire(self.deep_view()));
    }
}

impl Decode for Message {
    /// The fields, each read behind the one before it.
    open spec fn parse(bytes: Seq<u8>) -> Parsed<MessageView> {
        match parse_at::<String>(bytes, 0) {
            Err(e) => Err(e),
            Ok((sender, at_0)) => match parse_at::<String>(bytes, at_0) {
                Err(e) => Err(e),
                Ok((contents, at_1)) => Ok((MessageView { sender, contents }, at_1)),
            },
        }
    }

    proof fn lemma_parse_within(bytes: Seq<u8>) {
        lemma_parse_at_within::<String>(bytes, 0);
        if let Ok((sender, at_0)) = parse_at::<String>(bytes, 0) {
            lemma_parse_at_within::<String>(bytes, at_0);
        }
    }

    fn decode(reader: &mut &[u8]) -> (r: Result<Self, DecodeError>) {
        let ghost bytes = reader@;
        let ghost at: nat = 0;
        assert(bytes.skip(0) =~= bytes);
        let sender = decode_at::<String>(reader, Ghost(bytes), Ghost(at))?;
        let ghost at = parse_at::<String>(bytes, at)->Ok_0.1;
        let contents = decode_at::<String>(reader, Ghost(bytes), Ghost(at))?;
        Ok(Message { sender, contents })
    }
}

impl RoundTrip for Message {
    proof fn lemma_round_trip(v: MessageView, rest: Seq<u8>) {
        let w_0 = <String as Encode>::wire(v.sender);
        let w_1 = <String as Encode>::wire(v.contents);
        let behind_0 = w_1 + rest;
        let bytes = Self::wire(v) + rest;
        lemma_regroup(w_0, w_1, rest);
        assert(bytes.skip(0) =~= bytes);
        lemma_parse_at_of_wire::<String>(bytes, 0, v.sender, behind_0);
        let at_0 = w_0.len();
        lemma_parse_at_of_wire::<String>(bytes, at_0, v.contents, rest);
    }

    proof fn lemma_parsed_encodable(bytes: Seq<u8>) {
        lemma_parse_at_encodable::<String>(bytes, 0);
        if let Ok((sender, at_0)) = parse_at::<String>(bytes, 0) {
            lemma_parse_at_encodable::<String>(bytes, at_0);
        }
    }
}

} // verus!
