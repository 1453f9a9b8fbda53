use chat_core::commands::{parse_line, Command};
use chat_core::connections::ConnectionRegistry;
use chat_core::errors::ChatError;
use chat_core::rooms::ChatroomRegistry;
use chat_core::text::{default_nick, format_user_line, join_parts};
use chat_core::users::UserRegistry;

#[test]
fn parse_plain_line_is_a_broadcast() {
    match parse_line(&"hello there".to_string()) {
        Ok(Command::Broadcast(t)) => assert_eq!(t, "hello there"),
        other => panic!("unexpected: {other:?}"),
    }
}

#[test]
fn parse_empty_line_is_a_broadcast() {
    match parse_line(&"".to_string()) {
        Ok(Command::Broadcast(t)) => assert_eq!(t, ""),
        other => panic!("unexpected: {other:?}"),
    }
}

#[test]
fn parse_join_takes_one_argument() {
    match parse_line(&"/join lobby".to_string()) {
        Ok(Command::Join(room)) => assert_eq!(room, "lobby"),
        other => panic!("unexpected: {other:?}"),
    }
    assert!(matches!(
        parse_line(&"/join".to_string()),
        Err(ChatError::WrongArgCount)
    ));
    assert!(matches!(
        parse_line(&"/join a b".to_string()),
        Err(ChatError::WrongArgCount)
    ));
    assert!(matches!(
        parse_line(&"/join ".to_string()),
        Err(ChatError::WrongArgCount)
    ));
    assert!(matches!(
        parse_line(&"/join  a".to_string()),
        Err(ChatError::WrongArgCount)
    ));
}

#[test]
fn parse_zero_argument_commands() {
    assert!(matches!(parse_line(&"/leave".to_string()), Ok(Command::Leave)));
    assert!(matches!(parse_line(&"/list".to_string()), Ok(Command::List)));
    assert!(matches!(parse_line(&"/users".to_string()), Ok(Command::Users)));
    assert!(matches!(parse_line(&"/help".to_string()), Ok(Command::Help)));
    assert!(matches!(
        parse_line(&"/disconnect".to_string()),
        Ok(Command::Disconnect)
    ));
    // A name followed by a single trailing space still has no arguments.
    assert!(matches!(parse_line(&"/leave ".to_string()), Ok(Command::Leave)));
}

#[test]
fn parse_unknown_command() {
    assert!(matches!(
        parse_line(&"/frobnicate".to_string()),
        Err(ChatError::UnknownCommand)
    ));
    assert!(matches!(
        parse_line(&"/".to_string()),
        Err(ChatError::UnknownCommand)
    ));
}

#[test]
fn parse_nick_keeps_the_argument() {
    match parse_line(&"/nick alice".to_string()) {
        Ok(Command::Nick(n)) => assert_eq!(n, "alice"),
        other => panic!("unexpected: {other:?}"),
    }
}

#[test]
fn connection_registry_round_trip() {
    let mut c = ConnectionRegistry::new();
    assert!(c.register(5).is_ok());
    assert!(c.contains(5));
    assert!(matches!(c.register(5), Err(ChatError::DuplicateConnection)));
    assert!(c.unregister(5).is_ok());
    assert!(!c.contains(5));
    assert!(matches!(c.unregister(5), Err(ChatError::UnknownConnection)));
}

#[test]
fn user_registry_register_rename_lookup() {
    let mut u = UserRegistry::new();
    u.register(5, "User5".to_string());
    assert_eq!(u.lookup(5).unwrap(), "User5");
    assert!(u.rename(5, "carol".to_string()).is_ok());
    assert_eq!(u.lookup(5).unwrap(), "carol");
    assert!(matches!(u.rename(6, "x".to_string()), Err(ChatError::UnknownUser)));
    assert!(matches!(u.lookup(6), Err(ChatError::UnknownUser)));
    assert!(u.unregister(5).is_ok());
    assert!(matches!(u.unregister(5), Err(ChatError::UnknownUser)));
}

#[test]
fn chatroom_registry_join_and_leave() {
    let mut r = ChatroomRegistry::new();
    let lobby = "lobby".to_string();
    assert_eq!(r.join(&lobby, 1).unwrap(), vec![1]);
    assert_eq!(r.join(&lobby, 2).unwrap(), vec![1, 2]);
    assert!(matches!(r.join(&lobby, 1), Err(ChatError::AlreadyMember)));
    assert!(matches!(
        r.join(&"den".to_string(), 1),
        Err(ChatError::AlreadyInAnotherRoom)
    ));
    assert_eq!(r.members_of(&lobby).unwrap(), vec![1, 2]);
    assert!(matches!(
        r.members_of(&"den".to_string()),
        Err(ChatError::UnknownRoom)
    ));
    let (name, snapshot) = r.room_of_peer(2).unwrap();
    assert_eq!(name, "lobby");
    assert_eq!(snapshot, vec![1, 2]);

    let (name, pre) = r.leave(1).unwrap();
    assert_eq!(name, "lobby");
    assert_eq!(pre, vec![1, 2]);
    assert_eq!(r.members_of(&lobby).unwrap(), vec![2]);
    assert!(matches!(r.leave(1), Err(ChatError::NotInAnyRoom)));

    // The last member's leave deletes the room entry.
    r.leave(2).unwrap();
    assert!(r.list_room_names().is_empty());
}

#[test]
fn default_nick_is_user_and_decimal_id() {
    assert_eq!(default_nick(0), "User0");
    assert_eq!(default_nick(7), "User7");
    assert_eq!(default_nick(1234567890123), "User1234567890123");
    assert_eq!(default_nick(u64::MAX), "User18446744073709551615");
}

#[test]
fn formatting_builds_fresh_lines() {
    assert_eq!(
        format_user_line(&"alice".to_string(), &"hi all".to_string()),
        "[alice]: hi all"
    );
    let parts = vec!["a".to_string(), "b".to_string(), "c".to_string()];
    assert_eq!(join_parts(&parts, ", "), "a, b, c");
    assert_eq!(join_parts(&Vec::new(), ", "), "");
    assert_eq!(join_parts(&vec!["solo".to_string()], ", "), "solo");
}
