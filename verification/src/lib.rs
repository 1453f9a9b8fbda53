//! Core state engine for a multi-room line-oriented chat service.
//!
//! The library tracks connections, user nicknames and chatroom membership,
//! parses the command protocol, and computes the exact set of lines to
//! deliver for every command.  All I/O (sockets, threads) lives outside;
//! callers feed one line at a time into the engine and perform the
//! deliveries it returns.

pub mod commands;
pub mod connections;
pub mod errors;
pub mod messenger;
pub mod rooms;
pub mod seqs;
pub mod session;
pub mod text;
pub mod users;
