use planning_poker::domain::Room;
use planning_poker::engine::{create_user, Engine};
use planning_poker::errors::RoomError;

fn cards_of(room: &Room) -> Vec<(u128, Option<String>)> {
    room.game
        .table
        .iter()
        .map(|uc| (uc.user_id, uc.card.clone()))
        .collect()
}

#[test]
fn second_pick_replaces_first() {
    let mut e = Engine::new();
    let room = e.create_room(None);
    let u = create_user("alice".to_string());
    let uid = u.id;
    e.join_room(room.id, u).unwrap();
    e.pick_card(uid, room.id, "5".to_string()).unwrap();
    let after = e.pick_card(uid, room.id, "8".to_string()).unwrap();
    let mine: Vec<_> = after
        .game
        .table
        .iter()
        .filter(|uc| uc.user_id == uid)
        .collect();
    assert_eq!(mine.len(), 1);
    assert_eq!(mine[0].card, Some("8".to_string()));
    assert_eq!(after.game.table.len(), 1);
}

#[test]
fn pick_after_show_fails_with_game_over() {
    let mut e = Engine::new();
    let room = e.create_room(None);
    let u = create_user("alice".to_string());
    let uid = u.id;
    e.join_room(room.id, u).unwrap();
    e.pick_card(uid, room.id, "5".to_string()).unwrap();
    e.show_cards(room.id).unwrap();
    let err = e.pick_card(uid, room.id, "8".to_string()).unwrap_err();
    assert_eq!(err, RoomError::GameOver);
    let rooms = e.get_rooms();
    assert_eq!(rooms.len(), 1);
    assert_eq!(cards_of(&rooms[0]), vec![(uid, Some("5".to_string()))]);
    assert!(rooms[0].is_game_over);
}

#[test]
fn reset_clears_table_and_flag() {
    let mut e = Engine::new();
    let room = e.create_room(None);
    let u = create_user("alice".to_string());
    let uid = u.id;
    e.join_room(room.id, u).unwrap();
    e.pick_card(uid, room.id, "13".to_string()).unwrap();
    e.show_cards(room.id).unwrap();
    let after = e.reset_game(room.id).unwrap();
    assert!(after.game.table.is_empty());
    assert!(!after.is_game_over);
    // A reset without a prior reveal behaves the same.
    e.pick_card(uid, room.id, "21".to_string()).unwrap();
    let again = e.reset_game(room.id).unwrap();
    assert!(again.game.table.is_empty());
    assert!(!again.is_game_over);
    // The reset produced a fresh game identifier.
    assert_ne!(after.game.id, room.game.id);
}

#[test]
fn join_twice_keeps_one_membership() {
    let mut e = Engine::new();
    let room = e.create_room(None);
    let u = create_user("alice".to_string());
    let uid = u.id;
    e.join_room(room.id, u.clone()).unwrap();
    let after = e.join_room(room.id, u).unwrap();
    let mine: Vec<_> = after.users.iter().filter(|x| x.id == uid).collect();
    assert_eq!(mine.len(), 1);
    assert_eq!(after.users.len(), 1);
}

#[test]
fn every_mutation_publishes_one_snapshot_per_room() {
    let mut e = Engine::new();
    let s = e.subscribe_to_rooms();
    let room = e.create_room(None);
    let got = e.broker.try_recv(s).expect("create_room publishes");
    assert_eq!(got.id, room.id);
    assert!(e.broker.try_recv(s).is_none());

    let u = create_user("alice".to_string());
    let uid = u.id;
    e.join_room(room.id, u.clone()).unwrap();
    let got = e.broker.try_recv(s).expect("join publishes");
    assert_eq!(got.users.len(), 1);
    assert!(e.broker.try_recv(s).is_none());

    // A join that changes nothing publishes nothing.
    e.join_room(room.id, u).unwrap();
    assert!(e.broker.try_recv(s).is_none());

    e.pick_card(uid, room.id, "5".to_string()).unwrap();
    let got = e.broker.try_recv(s).expect("pick publishes");
    assert_eq!(cards_of(&got), vec![(uid, Some("5".to_string()))]);
    assert!(e.broker.try_recv(s).is_none());

    e.show_cards(room.id).unwrap();
    let got = e.broker.try_recv(s).expect("show publishes");
    assert!(got.is_game_over);
    assert!(e.broker.try_recv(s).is_none());

    e.reset_game(room.id).unwrap();
    let got = e.broker.try_recv(s).expect("reset publishes");
    assert!(got.game.table.is_empty());
    assert!(e.broker.try_recv(s).is_none());

    // A failed mutation publishes nothing.
    assert!(e.pick_card(777, room.id, "5".to_string()).is_err());
    assert!(e.broker.try_recv(s).is_none());
}

#[test]
fn rename_and_logout_publish_once_per_affected_room() {
    let mut e = Engine::new();
    let room_a = e.create_room(Some("a".to_string()));
    let room_b = e.create_room(Some("b".to_string()));
    let bystander = e.create_room(Some("c".to_string()));
    let u = create_user("alice".to_string());
    let uid = u.id;
    e.join_room(room_a.id, u.clone()).unwrap();
    e.join_room(room_b.id, u).unwrap();

    let s = e.subscribe_to_rooms();
    let record = e.edit_user(uid, "alicia".to_string());
    assert_eq!(record.id, uid);
    assert_eq!(record.username, "alicia");
    let first = e.broker.try_recv(s).expect("rename publishes per room");
    let second = e.broker.try_recv(s).expect("rename publishes per room");
    assert_eq!(first.id, room_a.id);
    assert_eq!(second.id, room_b.id);
    assert_eq!(first.users[0].username, "alicia");
    assert_eq!(second.users[0].username, "alicia");
    assert!(e.broker.try_recv(s).is_none());
    assert_ne!(first.id, bystander.id);
    assert_ne!(second.id, bystander.id);

    assert!(e.logout(uid));
    let first = e.broker.try_recv(s).expect("logout publishes per room");
    let second = e.broker.try_recv(s).expect("logout publishes per room");
    assert_eq!(first.id, room_a.id);
    assert_eq!(second.id, room_b.id);
    assert!(first.users.is_empty());
    assert!(second.users.is_empty());
    assert!(e.broker.try_recv(s).is_none());
}

#[test]
fn late_subscriber_receives_no_backlog() {
    let mut e = Engine::new();
    e.create_room(Some("early one".to_string()));
    e.create_room(Some("early two".to_string()));
    let s = e.subscribe_to_rooms();
    assert!(e.broker.try_recv(s).is_none());
    let late = e.create_room(Some("late".to_string()));
    let got = e.broker.try_recv(s).expect("only the later publish arrives");
    assert_eq!(got.id, late.id);
    assert_eq!(got.name, Some("late".to_string()));
    assert!(e.broker.try_recv(s).is_none());
}

#[test]
fn subscribers_receive_independently_and_in_order() {
    let mut e = Engine::new();
    let s1 = e.subscribe_to_rooms();
    let s2 = e.subscribe_to_rooms();
    let a = e.create_room(Some("a".to_string()));
    let b = e.create_room(Some("b".to_string()));
    // First subscriber drains both, in publish order.
    assert_eq!(e.broker.try_recv(s1).unwrap().id, a.id);
    assert_eq!(e.broker.try_recv(s1).unwrap().id, b.id);
    assert!(e.broker.try_recv(s1).is_none());
    // The second subscriber's queue was untouched.
    assert_eq!(e.broker.try_recv(s2).unwrap().id, a.id);
    assert_eq!(e.broker.try_recv(s2).unwrap().id, b.id);
    assert!(e.broker.try_recv(s2).is_none());
}

#[test]
fn unsubscribed_slot_receives_nothing() {
    let mut e = Engine::new();
    let s = e.subscribe_to_rooms();
    e.broker.unsubscribe(s);
    e.create_room(None);
    assert!(e.broker.try_recv(s).is_none());
}

#[test]
fn sprint_scenario_runs_end_to_end() {
    let mut e = Engine::new();
    let room = e.create_room(Some("Sprint 1".to_string()));
    assert_eq!(room.name, Some("Sprint 1".to_string()));
    let a = create_user("a".to_string());
    let b = create_user("b".to_string());
    let (a_id, b_id) = (a.id, b.id);
    e.join_room(room.id, a).unwrap();
    e.join_room(room.id, b).unwrap();
    e.pick_card(a_id, room.id, "5".to_string()).unwrap();
    e.pick_card(b_id, room.id, "8".to_string()).unwrap();
    let shown = e.show_cards(room.id).unwrap();
    assert_eq!(
        cards_of(&shown),
        vec![
            (a_id, Some("5".to_string())),
            (b_id, Some("8".to_string()))
        ]
    );
    assert!(shown.is_game_over);
    let reset = e.reset_game(room.id).unwrap();
    assert!(reset.game.table.is_empty());
    assert!(!reset.is_game_over);
}

#[test]
fn pick_by_nonmember_fails_with_user_not_in_room() {
    let mut e = Engine::new();
    let room = e.create_room(None);
    let stranger = create_user("stranger".to_string());
    let err = e
        .pick_card(stranger.id, room.id, "5".to_string())
        .unwrap_err();
    assert_eq!(err, RoomError::UserNotInRoom);
}

#[test]
fn unknown_room_fails_with_room_not_found() {
    let mut e = Engine::new();
    let nobody: u128 = 7;
    assert_eq!(
        e.join_room(nobody, create_user("a".to_string())).unwrap_err(),
        RoomError::RoomNotFound
    );
    assert_eq!(
        e.pick_card(1, nobody, "5".to_string()).unwrap_err(),
        RoomError::RoomNotFound
    );
    assert_eq!(e.show_cards(nobody).unwrap_err(), RoomError::RoomNotFound);
    assert_eq!(e.reset_game(nobody).unwrap_err(), RoomError::RoomNotFound);
}

#[test]
fn error_messages_match_the_wire_text() {
    assert_eq!(RoomError::RoomNotFound.message(), "Room not found");
    assert_eq!(RoomError::UserNotInRoom.message(), "User not in room");
    assert_eq!(RoomError::GameOver.message(), "Game is over");
}

#[test]
fn new_room_holds_the_standard_deck() {
    let mut e = Engine::new();
    let room = e.create_room(None);
    let faces: Vec<&str> = room.deck.cards.iter().map(|c| c.as_str()).collect();
    assert_eq!(
        faces,
        vec![
            "0", "1", "2", "3", "5", "8", "13", "21", "34", "55", "89", "\u{221e}", "?",
            "\u{2615}"
        ]
    );
    assert!(room.users.is_empty());
    assert!(room.game.table.is_empty());
    assert!(!room.is_game_over);
}

#[test]
fn create_user_keeps_username() {
    let u = create_user("carol".to_string());
    assert_eq!(u.username, "carol");
}

#[test]
fn get_user_rooms_filters_by_membership() {
    let mut e = Engine::new();
    let room_a = e.create_room(Some("a".to_string()));
    let room_b = e.create_room(Some("b".to_string()));
    let u = create_user("alice".to_string());
    let uid = u.id;
    e.join_room(room_b.id, u).unwrap();
    let all = e.get_rooms();
    assert_eq!(all.len(), 2);
    assert_eq!(all[0].id, room_a.id);
    assert_eq!(all[1].id, room_b.id);
    let mine = e.get_user_rooms(uid);
    assert_eq!(mine.len(), 1);
    assert_eq!(mine[0].id, room_b.id);
    assert!(e.get_user_rooms(999).is_empty());
}

#[test]
fn logout_keeps_existing_votes_on_the_table() {
    let mut e = Engine::new();
    let room = e.create_room(None);
    let u = create_user("alice".to_string());
    let uid = u.id;
    e.join_room(room.id, u).unwrap();
    e.pick_card(uid, room.id, "3".to_string()).unwrap();
    e.logout(uid);
    let rooms = e.get_rooms();
    assert!(rooms[0].users.is_empty());
    assert_eq!(cards_of(&rooms[0]), vec![(uid, Some("3".to_string()))]);
}

#[test]
fn snapshots_are_independent_copies() {
    let mut e = Engine::new();
    let mut room = e.create_room(None);
    // Corrupting the returned snapshot must not touch the store.
    room.users.push(create_user("intruder".to_string()));
    room.is_game_over = true;
    let canonical = &e.get_rooms()[0];
    assert!(canonical.users.is_empty());
    assert!(!canonical.is_game_over);
}
