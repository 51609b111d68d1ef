use udp_chat::{
    App, Datagram, DecodeError, Diagnostic, Encode, Handled, Message, PacketKind, Room, RoomInfo,
    RoomList, Var,
};

type Addr = ([u8; 4], u16);

const A: Addr = ([10, 0, 0, 1], 4000);
const B: Addr = ([10, 0, 0, 2], 4001);

fn node(name: &str) -> App<Addr> {
    let (app, ping) = App::new(name.to_string(), None);
    assert_eq!(ping, None);
    app
}

fn packet<T: Encode>(kind: u16, payload: &T) -> Vec<u8> {
    let mut bytes = Vec::new();
    Var(kind).encode(&mut bytes);
    payload.encode(&mut bytes);
    bytes
}

fn replies_of(out: &Handled<Addr>) -> Vec<(Addr, Vec<u8>)> {
    out.replies.iter().map(|d| (d.to, d.bytes.clone())).collect()
}

fn room(id: &str, title: &str) -> RoomInfo {
    RoomInfo {
        id: id.to_string(),
        title: title.to_string(),
        short_about: "short".to_string(),
        long_about: "long".to_string(),
    }
}

#[test]
fn ping_sets_the_peer_and_is_answered_with_pong() {
    let mut app = node("alice");
    assert_eq!(app.current_peer(), None);
    let out = app.on_datagram(A, &[0]);
    assert_eq!(app.current_peer(), Some(A));
    assert_eq!(replies_of(&out), vec![(A, vec![1])]);
    assert_eq!(out.message, None);
    assert_eq!(out.diagnostic, None);
}

#[test]
fn room_list_request_is_answered_with_the_ids_of_the_owned_rooms() {
    let mut app = node("alice");
    let out = app.on_datagram(A, &[4]);
    let mut expected = vec![7u8];
    vec!["alice_owned_room".to_string()].encode(&mut expected);
    assert_eq!(replies_of(&out), vec![(A, expected.clone())]);
    let mut literal = vec![7u8, 1, 16];
    literal.extend_from_slice(b"alice_owned_room");
    assert_eq!(expected, literal);
    assert_eq!(out.diagnostic, None);
}

#[test]
fn request_for_a_room_that_is_not_owned_gets_no_reply() {
    let mut app = node("alice");
    let out = app.on_datagram(A, &packet(3, &"bob_owned_room".to_string()));
    assert!(out.replies.is_empty());
    assert_eq!(out.message, None);
    assert_eq!(out.diagnostic, Some(Diagnostic::UnknownRoom("bob_owned_room".to_string())));
    assert_eq!(app.current_peer(), Some(A));
}

#[test]
fn datagram_of_continuation_bytes_is_dropped_and_the_next_one_is_handled() {
    for byte in [0x80u8, 0xff, 0x81, 0xc0] {
        let mut app = node("alice");
        let out = app.on_datagram(A, &[byte; 20]);
        assert!(out.replies.is_empty());
        assert_eq!(out.message, None);
        assert_eq!(out.diagnostic, Some(Diagnostic::Malformed(DecodeError::InvalidData)));
        assert_eq!(app.current_peer(), Some(A));
        assert_eq!(app.remote_rooms().len(), 0);
        assert_eq!(app.owned_rooms().len(), 1);
        let out = app.on_datagram(B, &[0]);
        assert_eq!(replies_of(&out), vec![(B, vec![1])]);
        assert_eq!(out.diagnostic, None);
        assert_eq!(app.current_peer(), Some(B));
    }
}

#[test]
fn opcode_that_goes_on_beyond_its_width_is_dropped() {
    let mut app = node("alice");
    for datagram in [&[0x80, 0x80, 0x80][..], &[0x80, 0x80, 0x80, 0x00][..], &[0x84, 0x80, 0xff, 1][..]]
    {
        let out = app.on_datagram(A, datagram);
        assert!(out.replies.is_empty());
        assert_eq!(out.message, None);
        assert_eq!(out.diagnostic, Some(Diagnostic::Malformed(DecodeError::InvalidData)));
    }
    let out = app.on_datagram(A, &[0x80, 0x80, 0x00]);
    assert_eq!(replies_of(&out), vec![(A, vec![1])]);
    let out = app.on_datagram(A, &[0xff, 0xff, 0x03]);
    assert_eq!(out.diagnostic, Some(Diagnostic::Unrecognized(0xffff)));
}

#[test]
fn payload_with_a_length_that_goes_on_beyond_its_width_is_noted() {
    let mut app = node("alice");
    for kind in [3u8, 6, 7, 8] {
        let mut datagram = vec![kind];
        datagram.extend_from_slice(&[0x80; 20]);
        let out = app.on_datagram(A, &datagram);
        assert!(out.replies.is_empty());
        assert_eq!(out.message, None);
        assert_eq!(out.diagnostic, Some(Diagnostic::Malformed(DecodeError::InvalidData)));
    }
    assert_eq!(app.remote_rooms().len(), 0);
}

#[test]
fn opcode_cut_short_is_dropped() {
    let mut app = node("alice");
    for datagram in [&[][..], &[0x80][..], &[0xff, 0xff][..]] {
        let out = app.on_datagram(A, datagram);
        assert!(out.replies.is_empty());
        assert_eq!(out.message, None);
        assert_eq!(out.diagnostic, Some(Diagnostic::Malformed(DecodeError::UnexpectedEof)));
        assert_eq!(app.current_peer(), Some(A));
        assert_eq!(app.remote_rooms().len(), 0);
    }
}

#[test]
fn unrecognized_opcode_is_dropped_and_changes_nothing_but_the_peer() {
    let mut app = node("alice");
    app.on_datagram(A, &packet(6, &room("r1", "first")));
    for (datagram, number) in [(vec![9u8], 9u16), (vec![0x80, 0x01], 128), (vec![0xff, 0x7f], 16383)]
    {
        let out = app.on_datagram(B, &datagram);
        assert!(out.replies.is_empty());
        assert_eq!(out.message, None);
        assert_eq!(out.diagnostic, Some(Diagnostic::Unrecognized(number)));
        assert_eq!(app.current_peer(), Some(B));
        assert_eq!(app.remote_rooms().ids(), vec!["r1".to_string()]);
        assert_eq!(app.owned_rooms().ids(), vec!["alice_owned_room".to_string()]);
    }
}

#[test]
fn pong_is_answered_with_a_request_for_the_room_list() {
    let mut app = node("alice");
    let out = app.on_datagram(A, &[1]);
    assert_eq!(replies_of(&out), vec![(A, vec![4])]);
    assert_eq!(app.current_peer(), Some(A));
}

#[test]
fn room_list_is_answered_with_a_request_for_each_room() {
    let mut app = node("alice");
    let list = RoomList { room_ids: vec!["x".to_string(), "bob_owned_room".to_string()] };
    let out = app.on_datagram(B, &packet(7, &list));
    let mut second = vec![3u8, 14];
    second.extend_from_slice(b"bob_owned_room");
    assert_eq!(replies_of(&out), vec![(B, vec![3, 1, b'x']), (B, second)]);
    assert_eq!(out.diagnostic, None);
    let out = app.on_datagram(B, &packet(7, &RoomList { room_ids: vec![] }));
    assert!(out.replies.is_empty());
    assert_eq!(out.diagnostic, None);
}

#[test]
fn request_for_an_owned_room_is_answered_with_its_record() {
    let mut app = node("alice");
    let out = app.on_datagram(A, &packet(3, &"alice_owned_room".to_string()));
    let info = RoomInfo {
        id: "alice_owned_room".to_string(),
        title: "alice's Bombass Owned Room".to_string(),
        short_about: "An automatically-created room for testing.".to_string(),
        long_about: "".to_string(),
    };
    assert_eq!(replies_of(&out), vec![(A, packet(6, &info))]);
    assert_eq!(out.diagnostic, None);
    assert_eq!(app.owned_rooms().get(&"alice_owned_room".to_string()), Some(&Room { info }));
    assert_eq!(app.owned_rooms().len(), 1);
}

#[test]
fn room_info_goes_into_the_cache_and_replaces_what_was_there() {
    let mut app = node("alice");
    assert_eq!(app.remote_rooms().len(), 0);
    let out = app.on_datagram(B, &packet(6, &room("r1", "first")));
    assert!(out.replies.is_empty());
    assert_eq!(out.message, None);
    assert_eq!(out.diagnostic, None);
    app.on_datagram(B, &packet(6, &room("r2", "second")));
    app.on_datagram(A, &packet(6, &room("r1", "renamed")));
    assert_eq!(app.remote_rooms().len(), 2);
    assert_eq!(app.remote_rooms().ids(), vec!["r1".to_string(), "r2".to_string()]);
    assert_eq!(
        app.remote_rooms().get(&"r1".to_string()),
        Some(&Room { info: room("r1", "renamed") })
    );
    assert_eq!(app.remote_rooms().get(&"r3".to_string()), None);
    assert_eq!(app.owned_rooms().len(), 1);
    assert_eq!(app.owned_rooms().get(&"r1".to_string()), None);
}

#[test]
fn message_is_handed_to_the_user() {
    let mut app = node("alice");
    let message = Message { sender: "bob".to_string(), contents: "hello there".to_string() };
    let mut datagram = packet(8, &message);
    datagram.extend_from_slice(&[0, 0, 0]);
    let out = app.on_datagram(B, &datagram);
    assert!(out.replies.is_empty());
    assert_eq!(out.message, Some(message));
    assert_eq!(out.diagnostic, None);
    assert_eq!(app.current_peer(), Some(B));
}

#[test]
fn reserved_kinds_are_noted_as_unimplemented() {
    let mut app = node("alice");
    let out = app.on_datagram(A, &[2]);
    assert!(out.replies.is_empty());
    assert_eq!(out.diagnostic, Some(Diagnostic::Unimplemented(PacketKind::RequestUserInfo)));
    let out = app.on_datagram(B, &[5, 1, 2, 3]);
    assert!(out.replies.is_empty());
    assert_eq!(out.diagnostic, Some(Diagnostic::Unimplemented(PacketKind::UserInfo)));
    assert_eq!(app.current_peer(), Some(B));
}

#[test]
fn payload_cut_short_is_noted_and_nothing_is_sent() {
    let mut app = node("alice");
    let full = packet(6, &room("r1", "first"));
    for kind in [3u8, 6, 7, 8] {
        let out = app.on_datagram(A, &[kind]);
        assert!(out.replies.is_empty());
        assert_eq!(out.message, None);
        assert_eq!(out.diagnostic, Some(Diagnostic::Malformed(DecodeError::UnexpectedEof)));
    }
    let out = app.on_datagram(A, &full[..full.len() - 1]);
    assert_eq!(out.diagnostic, Some(Diagnostic::Malformed(DecodeError::UnexpectedEof)));
    assert_eq!(app.remote_rooms().len(), 0);
    assert_eq!(app.current_peer(), Some(A));
}

#[test]
fn payload_with_invalid_utf8_is_noted_and_nothing_is_sent() {
    let mut app = node("alice");
    for datagram in [vec![3u8, 1, 0xff], vec![8, 1, b'a', 2, 0xc3, 0x28], vec![7, 1, 1, 0x80]] {
        let out = app.on_datagram(A, &datagram);
        assert!(out.replies.is_empty());
        assert_eq!(out.message, None);
        assert_eq!(out.diagnostic, Some(Diagnostic::Malformed(DecodeError::InvalidData)));
    }
}

#[test]
fn on_packet_takes_the_kind_and_the_payload_apart() {
    let mut app = node("alice");
    let out = app.on_packet(A, PacketKind::Ping, &[]);
    assert_eq!(replies_of(&out), vec![(A, vec![1])]);
    let out = app.on_packet(B, PacketKind::RequestRoomInfo, &[1, b'q']);
    assert_eq!(out.diagnostic, Some(Diagnostic::UnknownRoom("q".to_string())));
    assert_eq!(app.current_peer(), Some(B));
}

#[test]
fn the_last_sender_is_the_peer() {
    let mut app = node("alice");
    app.on_datagram(A, &[0]);
    app.on_datagram(B, &[1]);
    assert_eq!(app.current_peer(), Some(B));
    app.on_datagram(A, &[2]);
    assert_eq!(app.current_peer(), Some(A));
}

#[test]
fn start_with_an_address_pings_it() {
    let (app, ping) = App::new("carol".to_string(), Some(B));
    assert_eq!(ping, Some(Datagram { to: B, bytes: vec![0] }));
    assert_eq!(app.current_peer(), None);
    assert_eq!(app.user_name(), "carol");
    assert_eq!(app.owned_rooms().ids(), vec!["carol_owned_room".to_string()]);
    assert_eq!(app.remote_rooms().len(), 0);
}

#[test]
fn starting_again_keeps_one_room_and_pings_again() {
    let (mut app, _) = App::new("carol".to_string(), Some(B));
    let ping = app.startup();
    assert_eq!(ping, Some(Datagram { to: B, bytes: vec![0] }));
    assert_eq!(app.owned_rooms().ids(), vec!["carol_owned_room".to_string()]);
}

#[test]
fn message_without_a_peer_is_dropped() {
    let app = node("alice");
    assert_eq!(app.send_message("anyone?".to_string()), None);
}

#[test]
fn message_with_a_peer_goes_to_the_peer() {
    let mut app = node("alice");
    app.on_datagram(A, &[0]);
    let sent = app.send_message("hi".to_string());
    let message = Message { sender: "alice".to_string(), contents: "hi".to_string() };
    assert_eq!(sent, Some(Datagram { to: A, bytes: packet(8, &message) }));
    assert_eq!(
        sent.unwrap().bytes,
        vec![8, 5, b'a', b'l', b'i', b'c', b'e', 2, b'h', b'i']
    );
}

#[test]
fn send_packet_puts_the_opcode_before_the_payload() {
    let app = node("alice");
    let datagram = app.send_packet(A, PacketKind::Message, &0x0102u16);
    assert_eq!(datagram, Datagram { to: A, bytes: vec![8, 0x02, 0x01] });
    let datagram = app.send_empty_packet(B, PacketKind::RoomList);
    assert_eq!(datagram, Datagram { to: B, bytes: vec![7] });
}

#[test]
fn build_room_list_lists_the_owned_rooms() {
    let app = node("dave");
    assert_eq!(app.build_room_list(), RoomList { room_ids: vec!["dave_owned_room".to_string()] });
}

#[test]
fn names_are_accepted_up_to_the_limit_of_the_format() {
    assert!(App::<Addr>::accepts_name(""));
    assert!(App::<Addr>::accepts_name("alice"));
    assert!(udp_chat::text::fits("alice"));
}

#[test]
fn two_nodes_find_each_other_and_learn_of_a_room() {
    let (mut alice, ping) = App::new("alice".to_string(), Some(B));
    let mut bob = node("bob");
    let mut to_bob = vec![ping.unwrap()];
    let mut rounds = 0;
    while !to_bob.is_empty() {
        let mut to_alice = Vec::new();
        for datagram in to_bob.drain(..) {
            assert_eq!(datagram.to, B);
            to_alice.extend(bob.on_datagram(A, &datagram.bytes).replies);
        }
        for datagram in to_alice {
            assert_eq!(datagram.to, A);
            to_bob.extend(alice.on_datagram(B, &datagram.bytes).replies);
        }
        rounds += 1;
        assert!(rounds < 10);
    }
    assert_eq!(alice.current_peer(), Some(B));
    assert_eq!(bob.current_peer(), Some(A));
    assert_eq!(alice.remote_rooms().ids(), vec!["bob_owned_room".to_string()]);
    let heard = alice.remote_rooms().get(&"bob_owned_room".to_string()).unwrap();
    assert_eq!(heard.info.title, "bob's Bombass Owned Room");
    let sent = alice.send_message("hello bob".to_string()).unwrap();
    let out = bob.on_datagram(A, &sent.bytes);
    assert_eq!(
        out.message,
        Some(Message { sender: "alice".to_string(), contents: "hello bob".to_string() })
    );
}
