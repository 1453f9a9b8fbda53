//! The session engine: the three registries behind one façade, the
//! command handlers, and the per-line dispatcher.
//!
//! Callers own the transport.  They register a peer on accept, feed
//! each inbound line (stripped of its newline) to [`ChatServer::handle_line`],
//! perform the returned deliveries, and deregister the peer when its
//! connection dies.

use vstd::prelude::*;

use crate::commands::Command;
use crate::commands::CommandRep;
use crate::commands::parse_line;
use crate::commands::parse_rep;
use crate::commands::lemma_single_arg_nonempty;
use crate::connections::ConnectionRegistry;
use crate::errors::ChatError;
use crate::messenger::Delivery;
use crate::messenger::announce_as_server;
use crate::messenger::announce_to_room;
use crate::messenger::broadcast_as_user;
use crate::messenger::recipients;
use crate::rooms::ChatroomRegistry;
use crate::text::default_nick;
use crate::text::default_nick_rep;
use crate::text::format_left;
use crate::text::format_server_line;
use crate::text::joined;
use crate::text::joined_text;
use crate::text::join_parts;
use crate::text::left_text;
use crate::text::server_line;
use crate::text::user_line;
use crate::users::UserRegistry;

verus! {

/// The pairs (peer, line) denoted by a delivery list.
pub open spec fn delivery_views(ds: Seq<Delivery>) -> Seq<(u64, Seq<char>)> {
    Seq::new(ds.len(), |i: int| ((ds[i]).to, (ds[i]).line@))
}

/// The same line addressed to each target in turn.
pub open spec fn fan_out(targets: Seq<u64>, line: Seq<char>) -> Seq<(u64, Seq<char>)> {
    Seq::new(targets.len(), |i: int| (targets[i], line))
}

/// The whole state of the chat service: who is connected, what they
/// are called, and which room each of them is in.
pub struct ChatServer {
    pub connections: ConnectionRegistry,
    pub users: UserRegistry,
    pub rooms: ChatroomRegistry,
}

impl ChatServer {
    /// The cross-registry invariant: each registry is well formed, the
    /// connected peers are exactly the registered users, and every room
    /// member is connected.
    pub open spec fn wf(&self) -> bool {
        &&& self.connections.wf()
        &&& self.users.wf()
        &&& self.rooms.wf()
        &&& forall|p: u64| #[trigger] self.users.has_user(p) == self.connections.is_registered(p)
        &&& forall|p: u64| #[trigger] self.rooms.in_some_room(p)
            ==> self.connections.is_registered(p)
    }

    /// Whether this peer currently holds a connection.
    pub open spec fn is_connected(&self, peer: u64) -> bool {
        self.connections.is_registered(peer)
    }

    /// Creates an engine with no connections, no users and no rooms.
    pub fn new() -> (r: ChatServer)
        ensures
            r.wf(),
            r.connections.peers@.len() == 0,
            r.users.entries@.len() == 0,
            r.rooms.rooms@.len() == 0,
    {
        ChatServer {
            connections: ConnectionRegistry::new(),
            users: UserRegistry::new(),
            rooms: ChatroomRegistry::new(),
        }
    }

    /// Registers a freshly accepted peer and gives it its generated
    /// default nickname.  Fails with `DuplicateConnection`, leaving the
    /// engine unchanged, exactly when the peer is already connected.
    pub fn on_connect(&mut self, peer: u64) -> (r: Result<(), ChatError>)
        requires
            old(self).wf(),
        ensures
            final(self).wf(),
            r matches Err(e) ==> e == ChatError::DuplicateConnection && *final(self) == *old(
                self,
            ),
            r matches Err(e) <==> old(self).is_connected(peer),
            r matches Ok(v) ==> {
                &&& final(self).is_connected(peer)
                &&& final(self).users.nick_of(peer) == default_nick_rep(peer)
                &&& final(self).rooms == old(self).rooms
                &&& forall|q: u64| q != peer
                    ==> #[trigger] final(self).is_connected(q) == old(self).is_connected(q)
                &&& forall|q: u64| q != peer && old(self).users.has_user(q)
                    ==> #[trigger] final(self).users.nick_of(q) == old(self).users.nick_of(q)
            },
    {
        let ghost pre = *self;
        match self.connections.register(peer) {
            Err(e) => Err(e),
            Ok(u) => {
                proof {
                    assert(!pre.users.has_user(peer));
                }
                self.users.register(peer, default_nick(peer));
                proof {
                    assert forall|p: u64| #[trigger] self.users.has_user(p)
                        == self.connections.is_registered(p) by {
                        if p != peer {
                            assert(self.users.has_user(p) == pre.users.has_user(p));
                        }
                    }
                    assert forall|p: u64| #[trigger] self.rooms.in_some_room(p) implies
                    self.connections.is_registered(p) by {
                        assert(pre.rooms.in_some_room(p));
                    }
                }
                Ok(())
            },
        }
    }

    /// Adds the peer to the room of this name, creating the room if
    /// needed, and plans the server announcement to every member of the
    /// room, the newcomer included.  Fails with `AlreadyMember` or
    /// `AlreadyInAnotherRoom`, leaving the engine unchanged.
    pub fn handle_join(&mut self, peer: u64, room: &String) -> (r: Result<Vec<Delivery>, ChatError>)
        requires
            old(self).wf(),
            old(self).is_connected(peer),
        ensures
            final(self).wf(),
            final(self).is_connected(peer),
            r matches Err(e) ==> *final(self) == *old(self),
            r matches Err(e) ==> (e == ChatError::AlreadyMember <==> old(self).rooms.has_room(
                room@,
            ) && old(self).rooms.members(room@).contains(peer)),
            r matches Err(e) ==> (e == ChatError::AlreadyInAnotherRoom <==> old(
                self,
            ).rooms.in_some_room(peer) && !(old(self).rooms.has_room(room@) && old(
                self,
            ).rooms.members(room@).contains(peer))),
            r matches Err(e) ==> (e == ChatError::AlreadyMember || e
                == ChatError::AlreadyInAnotherRoom),
            r matches Ok(ds) <==> !old(self).rooms.in_some_room(peer),
            r matches Ok(ds) ==> Self::join_ok_post(
                *old(self),
                *final(self),
                peer,
                room@,
                delivery_views(ds@),
            ),
    {
        let ghost pre = *self;
        match self.rooms.join(room, peer) {
            Err(e) => Err(e),
            Ok(snap) => {
                let nick = match self.users.lookup(peer) {
                    Ok(n) => n,
                    Err(u) => {
                        proof {
                            assert(false);
                        }
                        unreached()
                    },
                };
                let text = crate::text::format_joined(&nick);
                let ds = announce_as_server(&snap, &text);
                proof {
                    assert forall|p: u64| #[trigger] self.rooms.in_some_room(p) implies
                    self.connections.is_registered(p) by {
                        if p != peer {
                            assert(pre.rooms.in_some_room(p));
                        }
                    }
                    assert(delivery_views(ds@) =~= fan_out(
                        self.rooms.members(room@),
                        server_line(joined_text(pre.users.nick_of(peer))),
                    ));
                }
                Ok(ds)
            },
        }
    }

    /// What a successful join did: the peer was in no room, only the
    /// joined room changed, and the announcement goes to the room's new
    /// member list, newcomer included, under the joiner's nickname at
    /// the time of the join.
    pub open spec fn join_ok_post(
        pre: ChatServer,
        post: ChatServer,
        peer: u64,
        room: Seq<char>,
        out: Seq<(u64, Seq<char>)>,
    ) -> bool {
        &&& !pre.rooms.in_some_room(peer)
        &&& post.users == pre.users
        &&& post.connections == pre.connections
        &&& post.rooms.has_room(room)
        &&& post.rooms.members(room) == (if pre.rooms.has_room(room) {
            pre.rooms.members(room).push(peer)
        } else {
            seq![peer]
        })
        &&& forall|n: Seq<char>| n != room ==> #[trigger] post.rooms.has_room(n)
            == pre.rooms.has_room(n)
        &&& forall|n: Seq<char>| n != room && pre.rooms.has_room(n)
            ==> #[trigger] post.rooms.members(n) == pre.rooms.members(n)
        &&& forall|q: u64| #[trigger] post.rooms.in_some_room(q) == (pre.rooms.in_some_room(q) || q
            == peer)
        &&& out == fan_out(
            post.rooms.members(room),
            server_line(joined_text(pre.users.nick_of(peer))),
        )
    }

    /// What a successful leave did: the peer's room lost it (and was
    /// deleted if it emptied), nothing else changed, and the departure
    /// announcement goes to the former roommates only.
    pub open spec fn leave_ok_post(
        pre: ChatServer,
        post: ChatServer,
        peer: u64,
        out: Seq<(u64, Seq<char>)>,
    ) -> bool {
        let room = pre.rooms.room_of(peer);
        &&& pre.rooms.in_some_room(peer)
        &&& post.users == pre.users
        &&& post.connections == pre.connections
        &&& Self::room_shrunk(pre, post, peer)
        &&& out == fan_out(
            recipients(pre.rooms.members(room), Some(peer)),
            server_line(left_text(pre.users.nick_of(peer))),
        )
    }

    /// How the room registry changes when a peer leaves its room: the
    /// room is deleted if the peer was its only member, otherwise it
    /// keeps the remaining members in order; other rooms are untouched.
    pub open spec fn room_shrunk(pre: ChatServer, post: ChatServer, peer: u64) -> bool {
        let room = pre.rooms.room_of(peer);
        &&& (pre.rooms.members(room).len() == 1 ==> !post.rooms.has_room(room))
        &&& (pre.rooms.members(room).len() > 1 ==> post.rooms.has_room(room)
            && post.rooms.members(room) == pre.rooms.members(room).remove_value(peer))
        &&& forall|n: Seq<char>| n != room ==> #[trigger] post.rooms.has_room(n)
            == pre.rooms.has_room(n)
        &&& forall|n: Seq<char>| n != room && pre.rooms.has_room(n)
            ==> #[trigger] post.rooms.members(n) == pre.rooms.members(n)
        &&& !post.rooms.in_some_room(peer)
        &&& forall|q: u64| q != peer ==> #[trigger] post.rooms.in_some_room(q)
            == pre.rooms.in_some_room(q)
    }

    /// Removes the peer from its current room, deleting the room when
    /// it empties, and plans the departure announcement to the
    /// remaining members.  Fails with `NotInAnyRoom`, leaving the
    /// engine unchanged, exactly when the peer is in no room.
    pub fn handle_leave(&mut self, peer: u64) -> (r: Result<Vec<Delivery>, ChatError>)
        requires
            old(self).wf(),
            old(self).is_connected(peer),
        ensures
            final(self).wf(),
            final(self).is_connected(peer),
            r matches Err(e) ==> e == ChatError::NotInAnyRoom && *final(self) == *old(self),
            r matches Err(e) <==> !old(self).rooms.in_some_room(peer),
            r matches Ok(ds) ==> Self::leave_ok_post(
                *old(self),
                *final(self),
                peer,
                delivery_views(ds@),
            ),
    {
        let ghost pre = *self;
        match self.rooms.leave(peer) {
            Err(e) => Err(e),
            Ok(v) => {
                let (rname, snap) = v;
                let nick = match self.users.lookup(peer) {
                    Ok(n) => n,
                    Err(u) => {
                        proof {
                            assert(false);
                        }
                        unreached()
                    },
                };
                let text = format_left(&nick);
                let line = format_server_line(&text);
                let ds = announce_to_room(&snap, &line, Some(peer));
                proof {
                    assert forall|p: u64| #[trigger] self.rooms.in_some_room(p) implies
                    self.connections.is_registered(p) by {
                        assert(pre.rooms.in_some_room(p));
                    }
                    assert(delivery_views(ds@) =~= fan_out(
                        recipients(pre.rooms.members(pre.rooms.room_of(peer)), Some(peer)),
                        server_line(left_text(pre.users.nick_of(peer))),
                    ));
                }
                Ok(ds)
            },
        }
    }

    /// Plans the broadcast of a user-authored message to the sender's
    /// current room: every member but the sender receives the text
    /// under the sender's current nickname.  Fails with `NotInAnyRoom`
    /// exactly when the sender is in no room.
    pub fn handle_broadcast(&self, peer: u64, text: &String) -> (r: Result<
        Vec<Delivery>,
        ChatError,
    >)
        requires
            self.wf(),
            self.is_connected(peer),
        ensures
            r matches Err(e) ==> e == ChatError::NotInAnyRoom,
            r matches Err(e) <==> !self.rooms.in_some_room(peer),
            r matches Ok(ds) ==> delivery_views(ds@) == fan_out(
                recipients(self.rooms.members(self.rooms.room_of(peer)), Some(peer)),
                user_line(self.users.nick_of(peer), text@),
            ),
    {
        let v = match self.rooms.room_of_peer(peer) {
            Ok(v) => v,
            Err(e) => {
                return Err(e);
            },
        };
        let (rname, snap) = v;
        match broadcast_as_user(&self.users, peer, &snap, text) {
            Ok(ds) => {
                proof {
                    assert(delivery_views(ds@) =~= fan_out(
                        recipients(self.rooms.members(self.rooms.room_of(peer)), Some(peer)),
                        user_line(self.users.nick_of(peer), text@),
                    ));
                }
                Ok(ds)
            },
            Err(u) => {
                proof {
                    assert(false);
                }
                unreached()
            },
        }
    }

    /// Plans the reply to the list command: one line to the sender
    /// holding all room names, comma-joined, in creation order.
    pub fn handle_list(&self, peer: u64) -> (r: Vec<Delivery>)
        ensures
            delivery_views(r@) == seq![(peer, joined(self.rooms.names(), ", "@))],
    {
        let names = self.rooms.list_room_names();
        let line = join_parts(&names, ", ");
        proof {
            assert(Seq::new(names@.len(), |i: int| names@[i]@) =~= self.rooms.names());
        }
        let mut r: Vec<Delivery> = Vec::new();
        r.push(Delivery { to: peer, line });
        proof {
            assert(delivery_views(r@) =~= seq![(peer, joined(self.rooms.names(), ", "@))]);
        }
        r
    }

    /// One line of the users report: the room's name, a colon, and its
    /// members' current nicknames, comma-joined, in join order.
    pub open spec fn room_report_line(&self, i: int) -> Seq<char> {
        self.rooms.rooms@[i].name@ + ": "@ + joined(
            Seq::new(
                self.rooms.rooms@[i].members@.len(),
                |k: int| self.users.nick_of(self.rooms.rooms@[i].members@[k]),
            ),
            ", "@,
        )
    }

    /// The whole users report: one line per room, newline-joined, in
    /// room creation order.
    pub open spec fn users_report(&self) -> Seq<char> {
        joined(Seq::new(self.rooms.rooms@.len(), |i: int| self.room_report_line(i)), "\n"@)
    }

    /// Plans the reply to the users command: one line to the sender
    /// listing, per room, the members' current nicknames.
    pub fn handle_users(&self, peer: u64) -> (r: Vec<Delivery>)
        requires
            self.wf(),
        ensures
            delivery_views(r@) == seq![(peer, self.users_report())],
    {
        let nrooms = self.rooms.rooms.len();
        let mut lines: Vec<String> = Vec::new();
        let mut i: usize = 0;
        while i < nrooms
            invariant
                self.wf(),
                nrooms == self.rooms.rooms@.len(),
                0 <= i <= nrooms,
                lines@.len() == i,
                forall|k: int| 0 <= k < i ==> (#[trigger] lines@[k])@ == self.room_report_line(k),
            decreases nrooms - i,
        {
            let nmembers = self.rooms.rooms[i].members.len();
            let mut nicks: Vec<String> = Vec::new();
            let mut k: usize = 0;
            while k < nmembers
                invariant
                    self.wf(),
                    i < self.rooms.rooms@.len(),
                    nmembers == self.rooms.rooms@[i as int].members@.len(),
                    0 <= k <= nmembers,
                    nicks@.len() == k,
                    forall|m: int| 0 <= m < k ==> (#[trigger] nicks@[m])@ == self.users.nick_of(
                        self.rooms.rooms@[i as int].members@[m],
                    ),
                decreases nmembers - k,
            {
                let member = self.rooms.rooms[i].members[k];
                proof {
                    assert(self.rooms.rooms@[i as int].members@.contains(member));
                    assert(self.rooms.in_some_room(member));
                }
                let nick = match self.users.lookup(member) {
                    Ok(n) => n,
                    Err(u) => {
                        proof {
                            assert(false);
                        }
                        unreached()
                    },
                };
                nicks.push(nick);
                k = k + 1;
            }
            let nick_list = join_parts(&nicks, ", ");
            let mut line = self.rooms.rooms[i].name.clone();
            line.push_str(": ");
            line.push_str(nick_list.as_str());
            proof {
                assert(Seq::new(nicks@.len(), |m: int| nicks@[m]@) =~= Seq::new(
                    self.rooms.rooms@[i as int].members@.len(),
                    |m: int| self.users.nick_of(self.rooms.rooms@[i as int].members@[m]),
                ));
                assert(line@ =~= self.room_report_line(i as int));
            }
            lines.push(line);
            i = i + 1;
        }
        let report = join_parts(&lines, "\n");
        proof {
            assert(Seq::new(lines@.len(), |k: int| lines@[k]@) =~= Seq::new(
                self.rooms.rooms@.len(),
                |k: int| self.room_report_line(k),
            ));
        }
        let mut r: Vec<Delivery> = Vec::new();
        r.push(Delivery { to: peer, line: report });
        proof {
            assert(delivery_views(r@) =~= seq![(peer, self.users_report())]);
        }
        r
    }

    /// What a nickname change did: only the one user's nickname
    /// changed.
    pub open spec fn nick_ok_post(
        pre: ChatServer,
        post: ChatServer,
        peer: u64,
        nick: Seq<char>,
    ) -> bool {
        &&& post.connections == pre.connections
        &&& post.rooms == pre.rooms
        &&& post.users.has_user(peer)
        &&& post.users.nick_of(peer) == nick
        &&& forall|q: u64| q != peer ==> #[trigger] post.users.has_user(q) == pre.users.has_user(
            q,
        )
        &&& forall|q: u64| q != peer && pre.users.has_user(q) ==> #[trigger] post.users.nick_of(q)
            == pre.users.nick_of(q)
    }

    /// Changes the sender's nickname.  Later queries and broadcasts see
    /// the new name; lines already planned are unaffected.
    pub fn handle_nick(&mut self, peer: u64, nick: &String)
        requires
            old(self).wf(),
            old(self).is_connected(peer),
            nick@.len() > 0,
        ensures
            final(self).wf(),
            final(self).is_connected(peer),
            Self::nick_ok_post(*old(self), *final(self), peer, nick@),
    {
        let ghost pre = *self;
        match self.users.rename(peer, nick.clone()) {
            Ok(u) => {
                proof {
                    assert forall|p: u64| #[trigger] self.users.has_user(p)
                        == self.connections.is_registered(p) by {
                        if p != peer {
                            assert(self.users.has_user(p) == pre.users.has_user(p));
                        }
                    }
                }
            },
            Err(u) => {
                proof {
                    assert(false);
                }
                unreached()
            },
        }
    }

    /// Plans the reply to the help command: the static command list to
    /// the sender.
    pub fn handle_help(&self, peer: u64) -> (r: Vec<Delivery>)
        ensures
            delivery_views(r@) == seq![(peer, crate::text::help_text())],
    {
        let mut r: Vec<Delivery> = Vec::new();
        r.push(Delivery { to: peer, line: crate::text::format_help() });
        proof {
            assert(delivery_views(r@) =~= seq![(peer, crate::text::help_text())]);
        }
        r
    }

    /// What a disconnect did: the peer is gone from every registry, its
    /// room shrank or vanished, every other peer is untouched, and the
    /// departure announcement was planned only when asked for and only
    /// when the peer was in a room.
    pub open spec fn disconnect_post(
        pre: ChatServer,
        post: ChatServer,
        peer: u64,
        out: Seq<(u64, Seq<char>)>,
        announce: bool,
    ) -> bool {
        &&& !post.is_connected(peer)
        &&& !post.users.has_user(peer)
        &&& !post.rooms.in_some_room(peer)
        &&& forall|q: u64| q != peer ==> #[trigger] post.is_connected(q) == pre.is_connected(q)
        &&& forall|q: u64| q != peer ==> #[trigger] post.users.has_user(q) == pre.users.has_user(
            q,
        )
        &&& forall|q: u64| q != peer && pre.users.has_user(q) ==> #[trigger] post.users.nick_of(q)
            == pre.users.nick_of(q)
        &&& (if pre.rooms.in_some_room(peer) {
            &&& Self::room_shrunk(pre, post, peer)
            &&& out == (if announce {
                fan_out(
                    recipients(pre.rooms.members(pre.rooms.room_of(peer)), Some(peer)),
                    server_line(left_text(pre.users.nick_of(peer))),
                )
            } else {
                Seq::<(u64, Seq<char>)>::empty()
            })
        } else {
            post.rooms == pre.rooms && out == Seq::<(u64, Seq<char>)>::empty()
        })
    }

    /// Removes the peer from its room (if any) and from the user and
    /// connection registries, planning the departure announcement when
    /// `announce` is set.
    fn cleanup(&mut self, peer: u64, announce: bool) -> (r: Vec<Delivery>)
        requires
            old(self).wf(),
            old(self).is_connected(peer),
        ensures
            final(self).wf(),
            Self::disconnect_post(*old(self), *final(self), peer, delivery_views(r@), announce),
    {
        let ghost pre = *self;
        let ds = match self.rooms.leave(peer) {
            Ok(v) => {
                let (rname, snap) = v;
                if announce {
                    let nick = match self.users.lookup(peer) {
                        Ok(n) => n,
                        Err(u) => {
                            proof {
                                assert(false);
                            }
                            unreached()
                        },
                    };
                    let text = format_left(&nick);
                    let line = format_server_line(&text);
                    announce_to_room(&snap, &line, Some(peer))
                } else {
                    Vec::new()
                }
            },
            Err(e) => Vec::new(),
        };
        let ghost mid = *self;
        match self.users.unregister(peer) {
            Ok(u) => (),
            Err(u) => {
                proof {
                    assert(false);
                }
                unreached()
            },
        }
        match self.connections.unregister(peer) {
            Ok(u) => (),
            Err(u) => {
                proof {
                    assert(false);
                }
                unreached()
            },
        }
        proof {
            assert forall|p: u64| #[trigger] self.users.has_user(p)
                == self.connections.is_registered(p) by {
                if p != peer {
                    assert(self.users.has_user(p) == pre.users.has_user(p));
                    assert(self.connections.is_registered(p) == pre.connections.is_registered(p));
                }
            }
            assert forall|p: u64| #[trigger] self.rooms.in_some_room(p) implies
            self.connections.is_registered(p) by {
                assert(self.rooms == mid.rooms);
                assert(p != peer);
                assert(pre.rooms.in_some_room(p));
            }
            if pre.rooms.in_some_room(peer) {
                if announce {
                    assert(delivery_views(ds@) =~= fan_out(
                        recipients(pre.rooms.members(pre.rooms.room_of(peer)), Some(peer)),
                        server_line(left_text(pre.users.nick_of(peer))),
                    ));
                } else {
                    assert(delivery_views(ds@) =~= Seq::<(u64, Seq<char>)>::empty());
                }
            } else {
                assert(delivery_views(ds@) =~= Seq::<(u64, Seq<char>)>::empty());
            }
        }
        ds
    }

    /// Handles the disconnect command: the peer leaves its room (with
    /// no announcement), its user and its connection are removed, and
    /// the caller must close the transport.
    pub fn handle_disconnect(&mut self, peer: u64) -> (r: Vec<Delivery>)
        requires
            old(self).wf(),
            old(self).is_connected(peer),
        ensures
            final(self).wf(),
            Self::disconnect_post(*old(self), *final(self), peer, delivery_views(r@), false),
            r@.len() == 0,
    {
        let r = self.cleanup(peer, false);
        proof {
            if r@.len() > 0 {
                assert(delivery_views(r@).len() > 0);
            }
        }
        r
    }

    /// Cleans up after a connection died or was closed: the peer leaves
    /// its room, the departure is announced to its former roommates,
    /// and its user and connection entries are removed.  Fails with
    /// `UnknownConnection`, leaving the engine unchanged, exactly when
    /// the peer is not connected; callers may treat that as an already
    /// finished cleanup.
    pub fn on_disconnect(&mut self, peer: u64) -> (r: Result<Vec<Delivery>, ChatError>)
        requires
            old(self).wf(),
        ensures
            final(self).wf(),
            r matches Err(e) ==> e == ChatError::UnknownConnection && *final(self) == *old(self),
            r matches Err(e) <==> !old(self).is_connected(peer),
            r matches Ok(ds) ==> Self::disconnect_post(
                *old(self),
                *final(self),
                peer,
                delivery_views(ds@),
                true,
            ),
    {
        if !self.connections.contains(peer) {
            return Err(ChatError::UnknownConnection);
        }
        Ok(self.cleanup(peer, true))
    }

    /// A failed command left the engine untouched and sent the sender
    /// one server-tagged error line.
    pub open spec fn unchanged_reply(
        pre: ChatServer,
        post: ChatServer,
        peer: u64,
        e: ChatError,
        out: Seq<(u64, Seq<char>)>,
    ) -> bool {
        &&& post == pre
        &&& out == seq![(peer, server_line(e.spec_text()))]
    }

    /// What handling one inbound line does, for every possible line:
    /// the command's effect on success, a single error reply with no
    /// state change on failure, and a disconnect exactly for the
    /// disconnect command.
    pub open spec fn step_post(
        pre: ChatServer,
        post: ChatServer,
        peer: u64,
        line: Seq<char>,
        out: Seq<(u64, Seq<char>)>,
        disc: bool,
    ) -> bool {
        match parse_rep(line) {
            Err(e) => !disc && Self::unchanged_reply(pre, post, peer, e, out),
            Ok(c) => match c {
                CommandRep::Broadcast(t) => !disc && (if pre.rooms.in_some_room(peer) {
                    post == pre && out == fan_out(
                        recipients(pre.rooms.members(pre.rooms.room_of(peer)), Some(peer)),
                        user_line(pre.users.nick_of(peer), t),
                    )
                } else {
                    Self::unchanged_reply(pre, post, peer, ChatError::NotInAnyRoom, out)
                }),
                CommandRep::Join(room) => !disc && (if pre.rooms.has_room(room)
                    && pre.rooms.members(room).contains(peer) {
                    Self::unchanged_reply(pre, post, peer, ChatError::AlreadyMember, out)
                } else if pre.rooms.in_some_room(peer) {
                    Self::unchanged_reply(pre, post, peer, ChatError::AlreadyInAnotherRoom, out)
                } else {
                    Self::join_ok_post(pre, post, peer, room, out)
                }),
                CommandRep::Leave => !disc && (if pre.rooms.in_some_room(peer) {
                    Self::leave_ok_post(pre, post, peer, out)
                } else {
                    Self::unchanged_reply(pre, post, peer, ChatError::NotInAnyRoom, out)
                }),
                CommandRep::List => !disc && post == pre && out == seq![
                    (peer, joined(pre.rooms.names(), ", "@)),
                ],
                CommandRep::Users => !disc && post == pre && out == seq![
                    (peer, pre.users_report()),
                ],
                CommandRep::Nick(nk) => !disc && Self::nick_ok_post(pre, post, peer, nk) && out
                    == Seq::<(u64, Seq<char>)>::empty(),
                CommandRep::Disconnect => disc && Self::disconnect_post(
                    pre,
                    post,
                    peer,
                    out,
                    false,
                ),
                CommandRep::Help => !disc && post == pre && out == seq![
                    (peer, crate::text::help_text()),
                ],
            },
        }
    }

    /// Plans the single error reply for a failed command.
    fn error_reply(peer: u64, e: ChatError) -> (r: Vec<Delivery>)
        ensures
            delivery_views(r@) == seq![(peer, server_line(e.spec_text()))],
    {
        let text = e.text().to_owned();
        let line = format_server_line(&text);
        let mut r: Vec<Delivery> = Vec::new();
        r.push(Delivery { to: peer, line });
        proof {
            assert(delivery_views(r@) =~= seq![(peer, server_line(e.spec_text()))]);
        }
        r
    }
}

impl ChatServer {
    /// Joining a room that did not exist and then leaving it restores
    /// the chatroom registry exactly: the room is absent again and
    /// every room resolves as it did before the join.
    pub proof fn lemma_join_then_leave_restores(
        pre: ChatServer,
        mid: ChatServer,
        post: ChatServer,
        peer: u64,
        room: Seq<char>,
        out_join: Seq<(u64, Seq<char>)>,
        out_leave: Seq<(u64, Seq<char>)>,
    )
        requires
            pre.wf(),
            mid.wf(),
            post.wf(),
            !pre.rooms.has_room(room),
            Self::join_ok_post(pre, mid, peer, room, out_join),
            Self::leave_ok_post(mid, post, peer, out_leave),
        ensures
            !post.rooms.has_room(room),
            forall|n: Seq<char>| #[trigger] post.rooms.has_room(n) == pre.rooms.has_room(n),
            forall|n: Seq<char>| pre.rooms.has_room(n) ==> #[trigger] post.rooms.members(n)
                == pre.rooms.members(n),
            post.rooms.as_map() == pre.rooms.as_map(),
    {
        assert(mid.rooms.members(room) == seq![peer]);
        let i = mid.rooms.room_index(room);
        assert(0 <= i < mid.rooms.rooms@.len() && mid.rooms.rooms@[i].name@ == room);
        assert(mid.rooms.rooms@[i].members@ == seq![peer]);
        assert(mid.rooms.rooms@[i].members@.contains(peer)) by {
            assert(mid.rooms.rooms@[i].members@[0] == peer);
        }
        mid.rooms.lemma_room_of_is(peer, i);
        assert(mid.rooms.room_of(peer) == room);
        assert(!post.rooms.has_room(room));
        assert forall|n: Seq<char>| #[trigger] post.rooms.has_room(n) == pre.rooms.has_room(
            n,
        ) by {
            if n != room {
                assert(post.rooms.has_room(n) == mid.rooms.has_room(n));
                assert(mid.rooms.has_room(n) == pre.rooms.has_room(n));
            }
        }
        assert forall|n: Seq<char>| pre.rooms.has_room(n) implies #[trigger] post.rooms.members(n)
            == pre.rooms.members(n) by {
            assert(n != room);
            assert(mid.rooms.members(n) == pre.rooms.members(n));
            assert(post.rooms.members(n) == mid.rooms.members(n));
        }
        assert(post.rooms.as_map() =~= pre.rooms.as_map());
    }

    /// A successful join of a room that did not exist creates it: the
    /// room is present afterwards and its name is among the room names
    /// that the list command reports.
    pub proof fn lemma_join_creates_room(
        pre: ChatServer,
        post: ChatServer,
        peer: u64,
        room: Seq<char>,
        out: Seq<(u64, Seq<char>)>,
    )
        requires
            Self::join_ok_post(pre, post, peer, room, out),
        ensures
            post.rooms.has_room(room),
            post.rooms.names().contains(room),
    {
        let i = choose|i: int|
            0 <= i < post.rooms.rooms@.len() && (#[trigger] post.rooms.rooms@[i]).name@ == room;
        assert(post.rooms.names()[i] == room);
    }

    /// Every member of an existing room holds a connection.
    proof fn lemma_room_members_connected(s: ChatServer, room: Seq<char>)
        requires
            s.wf(),
            s.rooms.has_room(room),
        ensures
            forall|q: u64| s.rooms.members(room).contains(q) ==> s.is_connected(q),
    {
        let i = s.rooms.room_index(room);
        assert(0 <= i < s.rooms.rooms@.len() && s.rooms.rooms@[i].name@ == room);
        assert forall|q: u64| s.rooms.members(room).contains(q) implies s.is_connected(q) by {
            assert(s.rooms.rooms@[i].members@.contains(q));
            assert(s.rooms.in_some_room(q));
        }
    }

    /// Fan-out is safe: every delivery that handling a line plans is
    /// addressed to a peer that held a connection when the line
    /// arrived.  A caller that performs the deliveries therefore never
    /// needs a write handle it was not given.
    pub proof fn lemma_deliveries_go_to_connected(
        pre: ChatServer,
        post: ChatServer,
        peer: u64,
        line: Seq<char>,
        out: Seq<(u64, Seq<char>)>,
        disc: bool,
    )
        requires
            pre.wf(),
            pre.is_connected(peer),
            Self::step_post(pre, post, peer, line, out, disc),
        ensures
            forall|i: int| 0 <= i < out.len() ==> pre.is_connected(#[trigger] out[i].0),
    {
        match parse_rep(line) {
            Err(e) => {},
            Ok(c) => match c {
                CommandRep::Broadcast(t) => {
                    if pre.rooms.in_some_room(peer) {
                        Self::lemma_sent_to_roommates(pre, peer, out);
                    }
                },
                CommandRep::Join(room) => {
                    if !(pre.rooms.has_room(room) && pre.rooms.members(room).contains(peer))
                        && !pre.rooms.in_some_room(peer) {
                        let members = post.rooms.members(room);
                        assert forall|i: int| 0 <= i < out.len() implies pre.is_connected(
                            #[trigger] out[i].0,
                        ) by {
                            assert(out[i].0 == members[i]);
                            if pre.rooms.has_room(room) {
                                assert(members == pre.rooms.members(room).push(peer));
                                if i < pre.rooms.members(room).len() {
                                    assert(pre.rooms.members(room).contains(members[i]));
                                    Self::lemma_room_members_connected(pre, room);
                                } else {
                                    assert(members[i] == peer);
                                }
                            } else {
                                assert(members == seq![peer]);
                                assert(members[i] == peer);
                            }
                        }
                    }
                },
                CommandRep::Leave => {
                    if pre.rooms.in_some_room(peer) {
                        Self::lemma_sent_to_roommates(pre, peer, out);
                    }
                },
                CommandRep::List => {},
                CommandRep::Users => {},
                CommandRep::Nick(nk) => {},
                CommandRep::Disconnect => {},
                CommandRep::Help => {},
            },
        }
    }

    /// A fan-out over the sender's roommates only targets connected
    /// peers: its recipients all come from the member list of the
    /// sender's room.
    proof fn lemma_sent_to_roommates(pre: ChatServer, peer: u64, out: Seq<(u64, Seq<char>)>)
        requires
            pre.wf(),
            pre.rooms.in_some_room(peer),
            exists|l: Seq<char>| out == fan_out(
                recipients(pre.rooms.members(pre.rooms.room_of(peer)), Some(peer)),
                l,
            ),
        ensures
            forall|i: int| 0 <= i < out.len() ==> pre.is_connected(#[trigger] out[i].0),
    {
        let room = pre.rooms.room_of(peer);
        pre.rooms.lemma_room_of_props(peer);
        Self::lemma_room_members_connected(pre, room);
        let members = pre.rooms.members(room);
        crate::seqs::lemma_filter_is_subset(members, |q: u64| q != peer);
        assert forall|i: int| 0 <= i < out.len() implies pre.is_connected(#[trigger] out[i].0) by {
            assert(out[i].0 == members.filter(|q: u64| q != peer)[i]);
            assert(members.contains(members.filter(|q: u64| q != peer)[i]));
        }
    }

    /// A nickname change governs every broadcast planned after it: the
    /// plan a subsequent broadcast produces is addressed to the same
    /// roommates and carries the new nickname.  Plans made earlier are
    /// values the change cannot reach.
    pub proof fn lemma_rename_then_broadcast(
        pre: ChatServer,
        post: ChatServer,
        peer: u64,
        nick: Seq<char>,
        text: Seq<char>,
    )
        requires
            Self::nick_ok_post(pre, post, peer, nick),
            post.rooms.in_some_room(peer),
        ensures
            post.users.nick_of(peer) == nick,
            fan_out(
                recipients(post.rooms.members(post.rooms.room_of(peer)), Some(peer)),
                user_line(post.users.nick_of(peer), text),
            ) == fan_out(
                recipients(pre.rooms.members(pre.rooms.room_of(peer)), Some(peer)),
                user_line(nick, text),
            ),
    {
        assert(post.rooms == pre.rooms);
    }
}

/// The effect of one inbound line: the lines to write out, and whether
/// the sender's connection is to be closed.
pub struct LineOutcome {
    pub deliveries: Vec<Delivery>,
    pub disconnect: bool,
}

impl ChatServer {
    /// Handles one inbound line from a connected peer: parses it,
    /// applies the command or broadcast, and plans every resulting
    /// delivery.  Failures become a single error reply to the sender
    /// and never touch the registries; only the disconnect command
    /// closes the connection.
    pub fn handle_line(&mut self, peer: u64, line: &String) -> (r: LineOutcome)
        requires
            old(self).wf(),
            old(self).is_connected(peer),
        ensures
            final(self).wf(),
            Self::step_post(
                *old(self),
                *final(self),
                peer,
                line@,
                delivery_views(r.deliveries@),
                r.disconnect,
            ),
            !r.disconnect ==> final(self).is_connected(peer),
            r.disconnect ==> !final(self).is_connected(peer),
    {
        match parse_line(line) {
            Err(e) => LineOutcome { deliveries: Self::error_reply(peer, e), disconnect: false },
            Ok(cmd) => match cmd {
                Command::Broadcast(t) => match self.handle_broadcast(peer, &t) {
                    Ok(ds) => LineOutcome { deliveries: ds, disconnect: false },
                    Err(e) => LineOutcome {
                        deliveries: Self::error_reply(peer, e),
                        disconnect: false,
                    },
                },
                Command::Join(room) => match self.handle_join(peer, &room) {
                    Ok(ds) => LineOutcome { deliveries: ds, disconnect: false },
                    Err(e) => LineOutcome {
                        deliveries: Self::error_reply(peer, e),
                        disconnect: false,
                    },
                },
                Command::Leave => match self.handle_leave(peer) {
                    Ok(ds) => LineOutcome { deliveries: ds, disconnect: false },
                    Err(e) => LineOutcome {
                        deliveries: Self::error_reply(peer, e),
                        disconnect: false,
                    },
                },
                Command::List => LineOutcome {
                    deliveries: self.handle_list(peer),
                    disconnect: false,
                },
                Command::Users => LineOutcome {
                    deliveries: self.handle_users(peer),
                    disconnect: false,
                },
                Command::Nick(nk) => {
                    proof {
                        lemma_single_arg_nonempty(line@);
                    }
                    self.handle_nick(peer, &nk);
                    let ds: Vec<Delivery> = Vec::new();
                    proof {
                        assert(delivery_views(ds@) =~= Seq::<(u64, Seq<char>)>::empty());
                    }
                    LineOutcome { deliveries: ds, disconnect: false }
                },
                Command::Disconnect => LineOutcome {
                    deliveries: self.handle_disconnect(peer),
                    disconnect: true,
                },
                Command::Help => LineOutcome {
                    deliveries: self.handle_help(peer),
                    disconnect: false,
                },
            },
        }
    }
}

} // verus!
