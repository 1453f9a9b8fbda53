use chat_core::session::{ChatServer, LineOutcome};

fn deliveries_of(out: &LineOutcome) -> Vec<(u64, String)> {
    out.deliveries.iter().map(|d| (d.to, d.line.clone())).collect()
}

#[test]
fn join_creates_room_and_list_shows_it() {
    let mut s = ChatServer::new();
    s.on_connect(1).unwrap();
    let out = s.handle_line(1, &"/join lobby".to_string());
    assert!(!out.disconnect);
    assert_eq!(
        deliveries_of(&out),
        vec![(1, "[Server]: User1 has joined the chatroom.".to_string())]
    );
    let out = s.handle_line(1, &"/list".to_string());
    assert_eq!(deliveries_of(&out), vec![(1, "lobby".to_string())]);
}

#[test]
fn join_while_in_another_room_fails() {
    let mut s = ChatServer::new();
    s.on_connect(1).unwrap();
    s.handle_line(1, &"/join lobby".to_string());
    let out = s.handle_line(1, &"/join den".to_string());
    assert_eq!(
        deliveries_of(&out),
        vec![(1, "[Server]: User is already in another chatroom".to_string())]
    );
    // Not silently moved: the peer is still a member of lobby alone.
    let out = s.handle_line(1, &"/list".to_string());
    assert_eq!(deliveries_of(&out), vec![(1, "lobby".to_string())]);
    let out = s.handle_line(1, &"/users".to_string());
    assert_eq!(deliveries_of(&out), vec![(1, "lobby: User1".to_string())]);
}

#[test]
fn join_same_room_twice_fails() {
    let mut s = ChatServer::new();
    s.on_connect(1).unwrap();
    s.handle_line(1, &"/join lobby".to_string());
    let out = s.handle_line(1, &"/join lobby".to_string());
    assert_eq!(
        deliveries_of(&out),
        vec![(1, "[Server]: User is already in chatroom".to_string())]
    );
}

#[test]
fn join_then_leave_deletes_singleton_room() {
    let mut s = ChatServer::new();
    s.on_connect(1).unwrap();
    s.handle_line(1, &"/join lobby".to_string());
    let out = s.handle_line(1, &"/leave".to_string());
    assert!(!out.disconnect);
    // No roommates were left behind, so nobody is told.
    assert_eq!(deliveries_of(&out), Vec::new());
    let out = s.handle_line(1, &"/list".to_string());
    assert_eq!(deliveries_of(&out), vec![(1, "".to_string())]);
}

#[test]
fn broadcast_reaches_all_but_the_sender() {
    let mut s = ChatServer::new();
    s.on_connect(1).unwrap();
    s.on_connect(2).unwrap();
    s.on_connect(3).unwrap();
    s.handle_line(1, &"/join lobby".to_string());
    s.handle_line(2, &"/join lobby".to_string());
    s.handle_line(3, &"/join lobby".to_string());
    let out = s.handle_line(1, &"hello".to_string());
    assert_eq!(
        deliveries_of(&out),
        vec![
            (2, "[User1]: hello".to_string()),
            (3, "[User1]: hello".to_string()),
        ]
    );
}

#[test]
fn broadcast_without_room_is_an_error_reply() {
    let mut s = ChatServer::new();
    s.on_connect(1).unwrap();
    let out = s.handle_line(1, &"hello".to_string());
    assert_eq!(
        deliveries_of(&out),
        vec![(1, "[Server]: User is not in a chatroom".to_string())]
    );
}

#[test]
fn nick_governs_later_queries_and_broadcasts() {
    let mut s = ChatServer::new();
    s.on_connect(1).unwrap();
    s.on_connect(2).unwrap();
    s.handle_line(1, &"/join lobby".to_string());
    s.handle_line(2, &"/join lobby".to_string());
    let before = s.handle_line(1, &"first".to_string());
    assert_eq!(deliveries_of(&before), vec![(2, "[User1]: first".to_string())]);

    let out = s.handle_line(1, &"/nick alice".to_string());
    assert_eq!(deliveries_of(&out), Vec::new());

    let out = s.handle_line(1, &"/users".to_string());
    assert_eq!(deliveries_of(&out), vec![(1, "lobby: alice, User2".to_string())]);
    let out = s.handle_line(1, &"second".to_string());
    assert_eq!(deliveries_of(&out), vec![(2, "[alice]: second".to_string())]);
    // The line planned before the rename still carries the old name.
    assert_eq!(deliveries_of(&before), vec![(2, "[User1]: first".to_string())]);
}

#[test]
fn two_users_may_share_a_nickname() {
    let mut s = ChatServer::new();
    s.on_connect(1).unwrap();
    s.on_connect(2).unwrap();
    s.handle_line(1, &"/join lobby".to_string());
    s.handle_line(2, &"/join lobby".to_string());
    s.handle_line(1, &"/nick sam".to_string());
    s.handle_line(2, &"/nick sam".to_string());
    let out = s.handle_line(1, &"/users".to_string());
    assert_eq!(deliveries_of(&out), vec![(1, "lobby: sam, sam".to_string())]);
}

#[test]
fn lobby_session_scenario() {
    let mut s = ChatServer::new();

    // Client A connects and joins lobby: only A is there to hear it.
    s.on_connect(10).unwrap();
    let out = s.handle_line(10, &"/join lobby".to_string());
    assert_eq!(
        deliveries_of(&out),
        vec![(10, "[Server]: User10 has joined the chatroom.".to_string())]
    );

    // A renames itself; the command succeeds with no reply content.
    let out = s.handle_line(10, &"/nick alice".to_string());
    assert!(!out.disconnect);
    assert_eq!(deliveries_of(&out), Vec::new());

    // Client B connects and joins: both A and B hear the announcement.
    s.on_connect(20).unwrap();
    let out = s.handle_line(20, &"/join lobby".to_string());
    assert_eq!(
        deliveries_of(&out),
        vec![
            (10, "[Server]: User20 has joined the chatroom.".to_string()),
            (20, "[Server]: User20 has joined the chatroom.".to_string()),
        ]
    );

    // A speaks; only B receives it, under A's new name.
    let out = s.handle_line(10, &"hello".to_string());
    assert_eq!(deliveries_of(&out), vec![(20, "[alice]: hello".to_string())]);

    // A leaves; B is told, and the room survives because B remains.
    let out = s.handle_line(10, &"/leave".to_string());
    assert_eq!(
        deliveries_of(&out),
        vec![(20, "[Server]: alice has left the chatroom.".to_string())]
    );
    let out = s.handle_line(20, &"/list".to_string());
    assert_eq!(deliveries_of(&out), vec![(20, "lobby".to_string())]);
}

#[test]
fn unknown_command_is_a_reply_not_a_crash() {
    let mut s = ChatServer::new();
    s.on_connect(1).unwrap();
    let out = s.handle_line(1, &"/frobnicate".to_string());
    assert!(!out.disconnect);
    assert_eq!(
        deliveries_of(&out),
        vec![(1, "[Server]: Unknown command".to_string())]
    );
    // The connection is still usable afterwards.
    let out = s.handle_line(1, &"/help".to_string());
    assert_eq!(out.deliveries.len(), 1);
}

#[test]
fn disconnect_mid_membership_cleans_everything_up() {
    let mut s = ChatServer::new();
    s.on_connect(1).unwrap();
    s.on_connect(2).unwrap();
    s.handle_line(1, &"/join lobby".to_string());
    s.handle_line(2, &"/join lobby".to_string());

    let out = s.handle_line(1, &"/disconnect".to_string());
    assert!(out.disconnect);
    assert_eq!(deliveries_of(&out), Vec::new());

    // Gone from the user registry and from the room.
    assert!(s.users.lookup(1).is_err());
    let out = s.handle_line(2, &"/users".to_string());
    assert_eq!(deliveries_of(&out), vec![(2, "lobby: User2".to_string())]);

    // The last member's disconnect deletes the room entry.
    let out = s.handle_line(2, &"/disconnect".to_string());
    assert!(out.disconnect);
    assert_eq!(s.rooms.list_room_names().len(), 0);
}

#[test]
fn read_error_cleanup_announces_departure() {
    let mut s = ChatServer::new();
    s.on_connect(1).unwrap();
    s.on_connect(2).unwrap();
    s.handle_line(1, &"/join lobby".to_string());
    s.handle_line(2, &"/join lobby".to_string());
    let ds = s.on_disconnect(1).unwrap();
    let got: Vec<(u64, String)> = ds.iter().map(|d| (d.to, d.line.clone())).collect();
    assert_eq!(got, vec![(2, "[Server]: User1 has left the chatroom.".to_string())]);
    assert!(s.users.lookup(1).is_err());
    // A second cleanup for the same peer reports it unknown.
    assert!(s.on_disconnect(1).is_err());
}

#[test]
fn help_lists_the_commands() {
    let mut s = ChatServer::new();
    s.on_connect(1).unwrap();
    let out = s.handle_line(1, &"/help".to_string());
    assert_eq!(
        deliveries_of(&out),
        vec![(
            1,
            "Commands:\n\t/help\n\t/join <channel_name>\n\t/disconnect\n\t/list\n\t/users\n\t/leave\n\t/nick <new_nick>"
                .to_string()
        )]
    );
}

#[test]
fn wrong_argument_counts_are_rejected() {
    let mut s = ChatServer::new();
    s.on_connect(1).unwrap();
    let err = "[Server]: Incorrect number of arguments".to_string();
    for line in ["/join", "/join a b", "/join ", "/nick", "/nick a b", "/leave x", "/list x",
        "/users x", "/help x", "/disconnect x"]
    {
        let out = s.handle_line(1, &line.to_string());
        assert!(!out.disconnect);
        assert_eq!(deliveries_of(&out), vec![(1, err.clone())], "line: {line}");
    }
}

#[test]
fn duplicate_connection_is_rejected() {
    let mut s = ChatServer::new();
    s.on_connect(1).unwrap();
    let e = s.on_connect(1).unwrap_err();
    assert_eq!(e.text(), "Connection already exists");
}

#[test]
fn leave_without_room_is_an_error_reply() {
    let mut s = ChatServer::new();
    s.on_connect(1).unwrap();
    let out = s.handle_line(1, &"/leave".to_string());
    assert_eq!(
        deliveries_of(&out),
        vec![(1, "[Server]: User is not in a chatroom".to_string())]
    );
}

#[test]
fn list_several_rooms_in_creation_order() {
    let mut s = ChatServer::new();
    s.on_connect(1).unwrap();
    s.on_connect(2).unwrap();
    s.handle_line(1, &"/join beta".to_string());
    s.handle_line(2, &"/join alpha".to_string());
    let out = s.handle_line(1, &"/list".to_string());
    assert_eq!(deliveries_of(&out), vec![(1, "beta, alpha".to_string())]);
    let out = s.handle_line(1, &"/users".to_string());
    assert_eq!(
        deliveries_of(&out),
        vec![(1, "beta: User1\nalpha: User2".to_string())]
    );
}
