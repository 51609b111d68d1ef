use udp_chat::{
    Decode, DecodeError, Encode, Message, PacketKind, Room, RoomInfo, RoomList, RoomTable,
    UserInfo,
};

fn encoded<T: Encode>(value: &T) -> Vec<u8> {
    let mut buf = Vec::new();
    value.encode(&mut buf);
    buf
}

fn decoded<T: Decode>(bytes: &[u8]) -> Result<T, DecodeError> {
    let mut reader = bytes;
    T::decode(&mut reader)
}

const KINDS: [PacketKind; 9] = [
    PacketKind::Ping,
    PacketKind::Pong,
    PacketKind::RequestUserInfo,
    PacketKind::RequestRoomInfo,
    PacketKind::RequestRoomList,
    PacketKind::UserInfo,
    PacketKind::RoomInfo,
    PacketKind::RoomList,
    PacketKind::Message,
];

#[test]
fn kinds_have_the_numbers_from_zero_to_eight() {
    for (number, kind) in KINDS.iter().enumerate() {
        assert_eq!(u16::from(*kind), number as u16);
        assert_eq!(PacketKind::try_from(number as u16), Ok(*kind));
        let back: u16 = (*kind).into();
        assert_eq!(back, number as u16);
    }
}

#[test]
fn numbers_above_eight_are_no_kind() {
    assert_eq!(PacketKind::try_from(9), Err(9));
    assert_eq!(PacketKind::try_from(255), Err(255));
    assert_eq!(PacketKind::try_from(u16::MAX), Err(u16::MAX));
    let kind: Result<PacketKind, u16> = 300u16.try_into();
    assert_eq!(kind, Err(300));
}

#[test]
fn records_are_their_fields_in_order() {
    let user = UserInfo {
        id: "u1".to_string(),
        username: "alice".to_string(),
        about: "".to_string(),
    };
    assert_eq!(
        encoded(&user),
        vec![2, b'u', b'1', 5, b'a', b'l', b'i', b'c', b'e', 0]
    );
    let room = RoomInfo {
        id: "r".to_string(),
        title: "t".to_string(),
        short_about: "sa".to_string(),
        long_about: "la!".to_string(),
    };
    assert_eq!(
        encoded(&room),
        vec![1, b'r', 1, b't', 2, b's', b'a', 3, b'l', b'a', b'!']
    );
    let list = RoomList { room_ids: vec!["a".to_string(), "bc".to_string()] };
    assert_eq!(encoded(&list), vec![2, 1, b'a', 2, b'b', b'c']);
    let message = Message { sender: "bob".to_string(), contents: "hi".to_string() };
    assert_eq!(encoded(&message), vec![3, b'b', b'o', b'b', 2, b'h', b'i']);
}

#[test]
fn records_round_trip() {
    let user = UserInfo {
        id: "u1".to_string(),
        username: "ålice".to_string(),
        about: "likes 🦀".to_string(),
    };
    assert_eq!(decoded::<UserInfo>(&encoded(&user)), Ok(user));
    let room = RoomInfo {
        id: "room".to_string(),
        title: "A room".to_string(),
        short_about: "".to_string(),
        long_about: "x".repeat(1000),
    };
    assert_eq!(decoded::<RoomInfo>(&encoded(&room)), Ok(room));
    let list = RoomList { room_ids: (0..200).map(|i| format!("room {}", i)).collect() };
    assert_eq!(decoded::<RoomList>(&encoded(&list)), Ok(list));
    let message = Message { sender: "".to_string(), contents: "…".to_string() };
    assert_eq!(decoded::<Message>(&encoded(&message)), Ok(message));
}

#[test]
fn record_cut_short_is_an_error() {
    let room = RoomInfo {
        id: "r".to_string(),
        title: "t".to_string(),
        short_about: "sa".to_string(),
        long_about: "la!".to_string(),
    };
    let bytes = encoded(&room);
    for cut in 0..bytes.len() {
        assert_eq!(decoded::<RoomInfo>(&bytes[..cut]), Err(DecodeError::UnexpectedEof));
    }
    assert_eq!(decoded::<Message>(&[1, b'a', 1, 0xff]), Err(DecodeError::InvalidData));
}

#[test]
fn record_reader_leaves_what_follows() {
    let mut bytes = encoded(&Message { sender: "a".to_string(), contents: "b".to_string() });
    bytes.extend_from_slice(&[9, 9]);
    let mut reader = bytes.as_slice();
    let message = Message::decode(&mut reader).unwrap();
    assert_eq!(message.contents, "b");
    assert_eq!(reader, &[9, 9]);
}

fn room(id: &str, title: &str) -> Room {
    Room {
        info: RoomInfo {
            id: id.to_string(),
            title: title.to_string(),
            short_about: "".to_string(),
            long_about: "".to_string(),
        },
    }
}

#[test]
fn table_starts_empty() {
    let table = RoomTable::new();
    assert_eq!(table.len(), 0);
    assert!(table.ids().is_empty());
    assert_eq!(table.get(&"a".to_string()), None);
}

#[test]
fn table_keeps_one_room_under_an_id() {
    let mut table = RoomTable::new();
    table.insert(room("a", "first"));
    table.insert(room("b", "second"));
    table.insert(room("c", "third"));
    table.insert(room("b", "again"));
    assert_eq!(table.len(), 3);
    assert_eq!(table.ids(), vec!["a".to_string(), "b".to_string(), "c".to_string()]);
    assert_eq!(table.get(&"a".to_string()), Some(&room("a", "first")));
    assert_eq!(table.get(&"b".to_string()), Some(&room("b", "again")));
    assert_eq!(table.get(&"c".to_string()), Some(&room("c", "third")));
    assert_eq!(table.get(&"".to_string()), None);
    assert_eq!(table.get(&"A".to_string()), None);
}
