//! The failure taxonomy of the chat engine.
//!
//! Every fallible operation reports one of these values; none of them is
//! fatal to a connection.  Callers turn an error into a single reply line
//! for the peer that caused it.

use vstd::prelude::*;

verus! {

/// A named failure of a registry operation or of command parsing.
#[derive(Clone, Copy, PartialEq, Eq, Structural, Debug)]
pub enum ChatError {
    /// A command was given the wrong number of arguments.
    WrongArgCount,
    /// The line began with `/` but named no known command.
    UnknownCommand,
    /// The peer tried to join a room it is already a member of.
    AlreadyMember,
    /// The peer tried to join a room while a member of a different one.
    AlreadyInAnotherRoom,
    /// The operation needs the peer to be in a room, and it is in none.
    NotInAnyRoom,
    /// No room of that name exists.
    UnknownRoom,
    /// The peer is not registered in the user registry.
    UnknownUser,
    /// The peer is not registered in the connection registry.
    UnknownConnection,
    /// The peer is already registered in the connection registry.
    DuplicateConnection,
}

impl ChatError {
    /// The reply text for this error, as seen by the peer that caused it.
    pub open spec fn spec_text(&self) -> Seq<char> {
        match self {
            ChatError::WrongArgCount => "Incorrect number of arguments"@,
            ChatError::UnknownCommand => "Unknown command"@,
            ChatError::AlreadyMember => "User is already in chatroom"@,
            ChatError::AlreadyInAnotherRoom => "User is already in another chatroom"@,
            ChatError::NotInAnyRoom => "User is not in a chatroom"@,
            ChatError::UnknownRoom => "Chatroom does not exist"@,
            ChatError::UnknownUser => "User does not exist"@,
            ChatError::UnknownConnection => "Connection does not exist"@,
            ChatError::DuplicateConnection => "Connection already exists"@,
        }
    }

    /// Returns the reply text for this error.
    pub fn text(&self) -> (r: &'static str)
        ensures
            r@ == self.spec_text(),
    {
        match self {
            ChatError::WrongArgCount => "Incorrect number of arguments",
            ChatError::UnknownCommand => "Unknown command",
            ChatError::AlreadyMember => "User is already in chatroom",
            ChatError::AlreadyInAnotherRoom => "User is already in another chatroom",
            ChatError::NotInAnyRoom => "User is not in a chatroom",
            ChatError::UnknownRoom => "Chatroom does not exist",
            ChatError::UnknownUser => "User does not exist",
            ChatError::UnknownConnection => "Connection does not exist",
            ChatError::DuplicateConnection => "Connection already exists",
        }
    }
}

} // verus!
