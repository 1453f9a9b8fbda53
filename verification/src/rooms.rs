//! The chatroom registry: room names mapped to ordered member lists.
//!
//! Rooms are created lazily by the first successful join and deleted as
//! soon as their last member leaves; a room with zero members never
//! exists.  A peer is a member of at most one room at any instant: a
//! join while already in a different room is rejected, never a silent
//! move.  Mutating operations either succeed or leave the registry
//! untouched, and every returned member list is a detached snapshot.

use vstd::prelude::*;

use crate::errors::ChatError;
use crate::seqs::contains_u64;
use crate::seqs::copy_u64s;
use crate::seqs::index_of_u64;
use crate::seqs::lemma_push_keeps_no_duplicates;
use crate::seqs::lemma_remove_keeps_no_duplicates;

verus! {

/// One chatroom: its name and its members in join order, without
/// duplicates.
pub struct Room {
    pub name: String,
    pub members: Vec<u64>,
}

impl Room {
    /// A room is well formed when it has at least one member and no
    /// member appears twice.
    pub open spec fn wf(&self) -> bool {
        &&& self.members@.len() > 0
        &&& self.members@.no_duplicates()
    }
}

/// All chatrooms of the service, in creation order.
pub struct ChatroomRegistry {
    pub rooms: Vec<Room>,
}

impl ChatroomRegistry {
    /// Every room is well formed, room names are distinct, and no peer
    /// is a member of two distinct rooms.
    pub open spec fn wf(&self) -> bool {
        &&& forall|i: int| 0 <= i < self.rooms@.len() ==> (#[trigger] self.rooms@[i]).wf()
        &&& forall|i: int, j: int|
            0 <= i < self.rooms@.len() && 0 <= j < self.rooms@.len() && i != j
                ==> (#[trigger] self.rooms@[i]).name@ != (#[trigger] self.rooms@[j]).name@
        &&& forall|i: int, j: int, p: u64|
            0 <= i < self.rooms@.len() && 0 <= j < self.rooms@.len() && i != j
                ==> !(#[trigger] self.rooms@[i].members@.contains(p)
                    && #[trigger] self.rooms@[j].members@.contains(p))
    }

    /// Whether a room of this name exists.
    pub open spec fn has_room(&self, name: Seq<char>) -> bool {
        exists|i: int| 0 <= i < self.rooms@.len() && (#[trigger] self.rooms@[i]).name@ == name
    }

    /// The position of the room of this name (meaningful only when
    /// `has_room(name)` holds; unique under `wf`).
    pub open spec fn room_index(&self, name: Seq<char>) -> int {
        choose|i: int| 0 <= i < self.rooms@.len() && (#[trigger] self.rooms@[i]).name@ == name
    }

    /// The member list of the room of this name, in join order.
    pub open spec fn members(&self, name: Seq<char>) -> Seq<u64> {
        self.rooms@[self.room_index(name)].members@
    }

    /// Whether this peer is a member of some room.
    pub open spec fn in_some_room(&self, peer: u64) -> bool {
        exists|i: int|
            0 <= i < self.rooms@.len() && (#[trigger] self.rooms@[i]).members@.contains(peer)
    }

    /// The name of the room this peer is in (meaningful only when
    /// `in_some_room(peer)` holds; unique under `wf`).
    pub open spec fn room_of(&self, peer: u64) -> Seq<char> {
        self.rooms@[choose|i: int|
            0 <= i < self.rooms@.len() && (#[trigger] self.rooms@[i]).members@.contains(
                peer,
            )].name@
    }

    /// The room names, in creation order.
    pub open spec fn names(&self) -> Seq<Seq<char>> {
        Seq::new(self.rooms@.len(), |i: int| self.rooms@[i].name@)
    }

    /// The registry as a map from room name to member list.
    pub open spec fn as_map(&self) -> Map<Seq<char>, Seq<u64>> {
        Map::new(|n: Seq<char>| self.has_room(n), |n: Seq<char>| self.members(n))
    }

    /// Under `wf`, a position that carries a name is the position that
    /// the name resolves to.
    pub proof fn lemma_room_index_is(&self, i: int)
        requires
            self.wf(),
            0 <= i < self.rooms@.len(),
        ensures
            self.has_room(self.rooms@[i].name@),
            self.room_index(self.rooms@[i].name@) == i,
            self.members(self.rooms@[i].name@) == self.rooms@[i].members@,
    {
        assert(self.has_room(self.rooms@[i].name@));
        let j = self.room_index(self.rooms@[i].name@);
        assert(0 <= j < self.rooms@.len() && self.rooms@[j].name@ == self.rooms@[i].name@);
    }

    /// A peer is a member of at most one chatroom: two rooms that share
    /// a member are the same room.
    pub proof fn lemma_member_of_at_most_one_room(&self, peer: u64, i: int, j: int)
        requires
            self.wf(),
            0 <= i < self.rooms@.len(),
            0 <= j < self.rooms@.len(),
            self.rooms@[i].members@.contains(peer),
            self.rooms@[j].members@.contains(peer),
        ensures
            i == j,
    {
    }

    /// If room `i` holds the peer, then `room_of(peer)` is that room's
    /// name and `members(room_of(peer))` is that room's member list.
    pub proof fn lemma_room_of_is(&self, peer: u64, i: int)
        requires
            self.wf(),
            0 <= i < self.rooms@.len(),
            self.rooms@[i].members@.contains(peer),
        ensures
            self.in_some_room(peer),
            self.room_of(peer) == self.rooms@[i].name@,
            self.room_index(self.room_of(peer)) == i,
            self.members(self.room_of(peer)) == self.rooms@[i].members@,
    {
        assert(self.in_some_room(peer));
        let j = choose|j: int|
            0 <= j < self.rooms@.len() && (#[trigger] self.rooms@[j]).members@.contains(peer);
        self.lemma_member_of_at_most_one_room(peer, i, j);
        self.lemma_room_index_is(i);
    }

    /// A peer that is in some room is a member of the room its name
    /// resolves to.
    pub proof fn lemma_room_of_props(&self, peer: u64)
        requires
            self.wf(),
            self.in_some_room(peer),
        ensures
            self.has_room(self.room_of(peer)),
            self.members(self.room_of(peer)).contains(peer),
    {
        let i = choose|i: int|
            0 <= i < self.rooms@.len() && (#[trigger] self.rooms@[i]).members@.contains(peer);
        self.lemma_room_of_is(peer, i);
    }

    /// When the registry changes only at position `i` and that room
    /// keeps its name, every other name resolves to the same member
    /// list as before; the same holds when a fresh room is appended.
    proof fn lemma_frame_elsewhere(pre: Self, post: Self, i: int)
        requires
            pre.wf(),
            post.wf(),
            0 <= i < post.rooms@.len(),
            pre.rooms@.len() <= post.rooms@.len() <= pre.rooms@.len() + 1,
            post.rooms@.len() == pre.rooms@.len() ==> i < pre.rooms@.len()
                && post.rooms@[i].name@ == pre.rooms@[i].name@,
            post.rooms@.len() == pre.rooms@.len() + 1 ==> i == pre.rooms@.len(),
            forall|k: int| 0 <= k < pre.rooms@.len() && k != i ==> post.rooms@[k]
                == pre.rooms@[k],
        ensures
            forall|n: Seq<char>| n != post.rooms@[i].name@ ==> #[trigger] post.has_room(n)
                == pre.has_room(n),
            forall|n: Seq<char>| n != post.rooms@[i].name@ && pre.has_room(n)
                ==> #[trigger] post.members(n) == pre.members(n),
    {
        let nm = post.rooms@[i].name@;
        assert forall|n: Seq<char>| n != nm implies #[trigger] post.has_room(n) == pre.has_room(
            n,
        ) by {
            if pre.has_room(n) {
                let k = pre.room_index(n);
                assert(0 <= k < pre.rooms@.len() && pre.rooms@[k].name@ == n);
                if k == i {
                    assert(post.rooms@.len() == pre.rooms@.len());
                } else {
                    assert(post.rooms@[k].name@ == n);
                }
                assert(post.has_room(n));
            }
            if post.has_room(n) {
                let k = post.room_index(n);
                assert(0 <= k < post.rooms@.len() && post.rooms@[k].name@ == n);
                assert(k != i);
                assert(pre.rooms@[k].name@ == n);
                assert(pre.has_room(n));
            }
        }
        assert forall|n: Seq<char>| n != nm && pre.has_room(n) implies #[trigger] post.members(n)
            == pre.members(n) by {
            let k = pre.room_index(n);
            assert(0 <= k < pre.rooms@.len() && pre.rooms@[k].name@ == n);
            if k == i {
                assert(post.rooms@.len() == pre.rooms@.len());
            }
            assert(k != i);
            assert(post.rooms@[k] == pre.rooms@[k]);
            pre.lemma_room_index_is(k);
            post.lemma_room_index_is(k);
        }
    }

    /// Membership across the whole registry after one peer was added to
    /// the room at position `i` (either appended to an existing member
    /// list or placed alone into a fresh room).
    proof fn lemma_membership_after_add(pre: Self, post: Self, i: int, peer: u64)
        requires
            pre.wf(),
            post.wf(),
            !pre.in_some_room(peer),
            0 <= i < post.rooms@.len(),
            pre.rooms@.len() <= post.rooms@.len() <= pre.rooms@.len() + 1,
            post.rooms@.len() == pre.rooms@.len() ==> i < pre.rooms@.len()
                && post.rooms@[i].members@ == pre.rooms@[i].members@.push(peer),
            post.rooms@.len() == pre.rooms@.len() + 1 ==> i == pre.rooms@.len()
                && post.rooms@[i].members@ == seq![peer],
            forall|k: int| 0 <= k < pre.rooms@.len() && k != i ==> post.rooms@[k]
                == pre.rooms@[k],
        ensures
            forall|q: u64| #[trigger] post.in_some_room(q) == (pre.in_some_room(q) || q == peer),
    {
        assert forall|q: u64| #[trigger] post.in_some_room(q) == (pre.in_some_room(q) || q
            == peer) by {
            if pre.in_some_room(q) {
                let k = choose|k: int|
                    0 <= k < pre.rooms@.len() && (#[trigger] pre.rooms@[k]).members@.contains(q);
                if k == i {
                    let w = choose|w: int|
                        0 <= w < pre.rooms@[k].members@.len() && pre.rooms@[k].members@[w] == q;
                    assert(post.rooms@[i].members@[w] == q);
                    assert(post.rooms@[i].members@.contains(q));
                } else {
                    assert(post.rooms@[k].members@.contains(q));
                }
                assert(post.in_some_room(q));
            }
            if q == peer {
                if post.rooms@.len() == pre.rooms@.len() {
                    let m = pre.rooms@[i].members@.len();
                    assert(post.rooms@[i].members@[m as int] == peer);
                } else {
                    assert(post.rooms@[i].members@[0] == peer);
                }
                assert(post.rooms@[i].members@.contains(peer));
                assert(post.in_some_room(q));
            }
            if post.in_some_room(q) && q != peer {
                let k = choose|k: int|
                    0 <= k < post.rooms@.len() && (#[trigger] post.rooms@[k]).members@.contains(
                        q,
                    );
                if k == i {
                    let w = choose|w: int|
                        0 <= w < post.rooms@[i].members@.len() && post.rooms@[i].members@[w] == q;
                    if post.rooms@.len() == pre.rooms@.len() {
                        assert(w < pre.rooms@[i].members@.len());
                        assert(pre.rooms@[i].members@[w] == q);
                        assert(pre.rooms@[i].members@.contains(q));
                        assert(pre.in_some_room(q));
                    } else {
                        assert(post.rooms@[i].members@[w] == peer);
                    }
                } else {
                    assert(k < pre.rooms@.len());
                    assert(pre.rooms@[k].members@.contains(q));
                    assert(pre.in_some_room(q));
                }
            }
        }
    }

    /// Creates an empty registry.
    pub fn new() -> (r: ChatroomRegistry)
        ensures
            r.wf(),
            r.rooms@.len() == 0,
    {
        ChatroomRegistry { rooms: Vec::new() }
    }

    /// Returns the position of the room of this name, if it exists.
    fn find_room(&self, name: &String) -> (r: Option<usize>)
        ensures
            match r {
                Some(i) => 0 <= i < self.rooms@.len() && self.rooms@[i as int].name@ == name@,
                None => !self.has_room(name@),
            },
    {
        let n = self.rooms.len();
        let mut i: usize = 0;
        while i < n
            invariant
                n == self.rooms@.len(),
                0 <= i <= n,
                forall|k: int| 0 <= k < i ==> (#[trigger] self.rooms@[k]).name@ != name@,
            decreases n - i,
        {
            if self.rooms[i].name == *name {
                return Some(i);
            }
            i = i + 1;
        }
        None
    }

    /// Returns the position of the room this peer is a member of, if
    /// any.
    fn find_peer(&self, peer: u64) -> (r: Option<usize>)
        ensures
            match r {
                Some(i) => 0 <= i < self.rooms@.len() && self.rooms@[i as int].members@.contains(
                    peer,
                ),
                None => !self.in_some_room(peer),
            },
    {
        let n = self.rooms.len();
        let mut i: usize = 0;
        while i < n
            invariant
                n == self.rooms@.len(),
                0 <= i <= n,
                forall|k: int| 0 <= k < i ==> !(#[trigger] self.rooms@[k]).members@.contains(
                    peer,
                ),
            decreases n - i,
        {
            if contains_u64(&self.rooms[i].members, peer) {
                return Some(i);
            }
            i = i + 1;
        }
        None
    }

    /// Adds the peer to the room of this name, creating the room if it
    /// is absent, and returns a snapshot of the member list after the
    /// join.  Fails with `AlreadyMember` if the peer is already in that
    /// room and with `AlreadyInAnotherRoom` if it is in a different
    /// room; on failure the registry is unchanged.
    pub fn join(&mut self, name: &String, peer: u64) -> (r: Result<Vec<u64>, ChatError>)
        requires
            old(self).wf(),
        ensures
            final(self).wf(),
            r matches Err(e) ==> *final(self) == *old(self) && (e == ChatError::AlreadyMember || e
                == ChatError::AlreadyInAnotherRoom),
            r == Err::<Vec<u64>, ChatError>(ChatError::AlreadyMember) <==> old(self).has_room(name@)
                && old(self).members(name@).contains(peer),
            r == Err::<Vec<u64>, ChatError>(ChatError::AlreadyInAnotherRoom) <==> old(
                self,
            ).in_some_room(peer) && !(old(self).has_room(name@) && old(self).members(
                name@,
            ).contains(peer)),
            r matches Ok(snap) ==> {
                &&& !old(self).in_some_room(peer)
                &&& final(self).has_room(name@)
                &&& final(self).members(name@) == (if old(self).has_room(name@) {
                    old(self).members(name@).push(peer)
                } else {
                    seq![peer]
                })
                &&& snap@ == final(self).members(name@)
                &&& forall|n: Seq<char>| n != name@
                    ==> #[trigger] final(self).has_room(n) == old(self).has_room(n)
                &&& forall|n: Seq<char>| n != name@ && old(self).has_room(n)
                    ==> #[trigger] final(self).members(n) == old(self).members(n)
                &&& forall|q: u64|
                    #[trigger] final(self).in_some_room(q) == (old(self).in_some_room(q) || q
                        == peer)
            },
    {
        let ghost pre = *self;
        match self.find_room(name) {
            Some(i) => {
                proof {
                    pre.lemma_room_index_is(i as int);
                }
                if contains_u64(&self.rooms[i].members, peer) {
                    proof {
                        pre.lemma_room_of_is(peer, i as int);
                    }
                    return Err(ChatError::AlreadyMember);
                }
                if self.find_peer(peer).is_some() {
                    return Err(ChatError::AlreadyInAnotherRoom);
                }
                let room = &mut self.rooms[i];
                room.members.push(peer);
                let snap = copy_u64s(&self.rooms[i].members);
                proof {
                    lemma_push_keeps_no_duplicates(pre.rooms@[i as int].members@, peer);
                    assert forall|k: int| 0 <= k < self.rooms@.len() implies (
                    #[trigger] self.rooms@[k]).wf() by {
                        if k != i {
                            assert(self.rooms@[k] == pre.rooms@[k]);
                        }
                    }
                    assert forall|a: int, b: int, p: u64|
                        0 <= a < self.rooms@.len() && 0 <= b < self.rooms@.len() && a != b implies
                    !(#[trigger] self.rooms@[a].members@.contains(p)
                        && #[trigger] self.rooms@[b].members@.contains(p)) by {
                        Self::lemma_disjoint_after_add(pre, *self, i as int, peer, a, b, p);
                    }
                    assert(self.wf());
                    self.lemma_room_index_is(i as int);
                    Self::lemma_frame_elsewhere(pre, *self, i as int);
                    Self::lemma_membership_after_add(pre, *self, i as int, peer);
                }
                Ok(snap)
            },
            None => {
                if self.find_peer(peer).is_some() {
                    return Err(ChatError::AlreadyInAnotherRoom);
                }
                let mut members: Vec<u64> = Vec::new();
                members.push(peer);
                let snap = copy_u64s(&members);
                self.rooms.push(Room { name: name.clone(), members });
                proof {
                    let i = pre.rooms@.len() as int;
                    assert(self.rooms@[i].members@ =~= seq![peer]);
                    assert forall|k: int| 0 <= k < self.rooms@.len() implies (
                    #[trigger] self.rooms@[k]).wf() by {
                        if k != i {
                            assert(self.rooms@[k] == pre.rooms@[k]);
                        }
                    }
                    assert forall|a: int, b: int|
                        0 <= a < self.rooms@.len() && 0 <= b < self.rooms@.len() && a != b implies
                    (#[trigger] self.rooms@[a]).name@ != (#[trigger] self.rooms@[b]).name@ by {
                        if a == i {
                            assert(self.rooms@[b] == pre.rooms@[b]);
                            assert(!pre.has_room(name@));
                        }
                        if b == i {
                            assert(self.rooms@[a] == pre.rooms@[a]);
                            assert(!pre.has_room(name@));
                        }
                    }
                    assert forall|a: int, b: int, p: u64|
                        0 <= a < self.rooms@.len() && 0 <= b < self.rooms@.len() && a != b implies
                    !(#[trigger] self.rooms@[a].members@.contains(p)
                        && #[trigger] self.rooms@[b].members@.contains(p)) by {
                        Self::lemma_disjoint_after_add(pre, *self, i, peer, a, b, p);
                    }
                    assert(self.wf());
                    self.lemma_room_index_is(i);
                    Self::lemma_frame_elsewhere(pre, *self, i);
                    Self::lemma_membership_after_add(pre, *self, i, peer);
                }
                Ok(snap)
            },
        }
    }

    /// No two distinct rooms share a member after one peer, previously
    /// in no room, was added to the room at position `i`.
    proof fn lemma_disjoint_after_add(
        pre: Self,
        post: Self,
        i: int,
        peer: u64,
        a: int,
        b: int,
        p: u64,
    )
        requires
            pre.wf(),
            !pre.in_some_room(peer),
            0 <= i < post.rooms@.len(),
            pre.rooms@.len() <= post.rooms@.len() <= pre.rooms@.len() + 1,
            post.rooms@.len() == pre.rooms@.len() ==> i < pre.rooms@.len()
                && post.rooms@[i].members@ == pre.rooms@[i].members@.push(peer),
            post.rooms@.len() == pre.rooms@.len() + 1 ==> i == pre.rooms@.len()
                && post.rooms@[i].members@ == seq![peer],
            forall|k: int| 0 <= k < pre.rooms@.len() && k != i ==> post.rooms@[k]
                == pre.rooms@[k],
            0 <= a < post.rooms@.len(),
            0 <= b < post.rooms@.len(),
            a != b,
        ensures
            !(post.rooms@[a].members@.contains(p) && post.rooms@[b].members@.contains(p)),
    {
        if post.rooms@[a].members@.contains(p) && post.rooms@[b].members@.contains(p) {
            if a != i && b != i {
                assert(post.rooms@[a] == pre.rooms@[a]);
                assert(post.rooms@[b] == pre.rooms@[b]);
            } else {
                let o = if a == i {
                    b
                } else {
                    a
                };
                assert(post.rooms@[o] == pre.rooms@[o]);
                assert(pre.rooms@[o].members@.contains(p));
                Self::lemma_add_members_contains(pre, post, i, peer, p);
                if p == peer {
                    assert(pre.in_some_room(peer));
                } else {
                    assert(pre.rooms@[i].members@.contains(p));
                }
            }
        }
    }

    /// What the updated room at position `i` contains after the add.
    proof fn lemma_add_members_contains(pre: Self, post: Self, i: int, peer: u64, p: u64)
        requires
            0 <= i < post.rooms@.len(),
            pre.rooms@.len() <= post.rooms@.len() <= pre.rooms@.len() + 1,
            post.rooms@.len() == pre.rooms@.len() ==> i < pre.rooms@.len()
                && post.rooms@[i].members@ == pre.rooms@[i].members@.push(peer),
            post.rooms@.len() == pre.rooms@.len() + 1 ==> i == pre.rooms@.len()
                && post.rooms@[i].members@ == seq![peer],
        ensures
            post.rooms@[i].members@.contains(p) <==> (p == peer || (i < pre.rooms@.len()
                && post.rooms@.len() == pre.rooms@.len() && pre.rooms@[i].members@.contains(p))),
    {
        if post.rooms@.len() == pre.rooms@.len() {
            let s = pre.rooms@[i].members@;
            if post.rooms@[i].members@.contains(p) {
                let w = choose|w: int|
                    0 <= w < s.push(peer).len() && s.push(peer)[w] == p;
                if w < s.len() {
                    assert(s[w] == p);
                    assert(s.contains(p));
                }
            }
            if p == peer {
                assert(s.push(peer)[s.len() as int] == peer);
                assert(s.push(peer).contains(peer));
            }
            if s.contains(p) {
                let w = choose|w: int| 0 <= w < s.len() && s[w] == p;
                assert(s.push(peer)[w] == p);
                assert(s.push(peer).contains(p));
            }
        } else {
            assert(post.rooms@[i].members@ == seq![peer]);
            if post.rooms@[i].members@.contains(p) {
                let w = choose|w: int|
                    0 <= w < seq![peer].len() && seq![peer][w] == p;
                assert(w == 0);
            }
            assert(seq![peer][0] == peer);
            if p == peer {
                assert(post.rooms@[i].members@.contains(p));
            }
        }
    }

    /// Removes the peer from its current room, deleting the room when
    /// it becomes empty.  Returns the room's name and a snapshot of the
    /// member list as it was before the removal.  Fails with
    /// `NotInAnyRoom`, leaving the registry unchanged, exactly when the
    /// peer is in no room.
    pub fn leave(&mut self, peer: u64) -> (r: Result<(String, Vec<u64>), ChatError>)
        requires
            old(self).wf(),
        ensures
            final(self).wf(),
            r matches Err(e) ==> e == ChatError::NotInAnyRoom && *final(self) == *old(self),
            r matches Err(e) <==> !old(self).in_some_room(peer),
            r matches Ok(v) ==> {
                &&& old(self).in_some_room(peer)
                &&& v.0@ == old(self).room_of(peer)
                &&& v.1@ == old(self).members(v.0@)
                &&& old(self).members(v.0@).len() == 1 ==> !final(self).has_room(v.0@)
                &&& old(self).members(v.0@).len() > 1 ==> final(self).has_room(v.0@)
                    && final(self).members(v.0@) == old(self).members(v.0@).remove_value(peer)
                &&& forall|n: Seq<char>| n != v.0@
                    ==> #[trigger] final(self).has_room(n) == old(self).has_room(n)
                &&& forall|n: Seq<char>| n != v.0@ && old(self).has_room(n)
                    ==> #[trigger] final(self).members(n) == old(self).members(n)
                &&& !final(self).in_some_room(peer)
                &&& forall|q: u64| q != peer
                    ==> #[trigger] final(self).in_some_room(q) == old(self).in_some_room(q)
            },
    {
        let ghost pre = *self;
        let i = match self.find_peer(peer) {
            Some(i) => i,
            None => {
                return Err(ChatError::NotInAnyRoom);
            },
        };
        proof {
            pre.lemma_room_of_is(peer, i as int);
        }
        let rname = self.rooms[i].name.clone();
        let snap = copy_u64s(&self.rooms[i].members);
        let k = index_of_u64(&self.rooms[i].members, peer);
        let ghost pre_members = pre.rooms@[i as int].members@;
        proof {
            lemma_remove_keeps_no_duplicates(pre_members, k as int);
            assert(pre_members.remove_value(peer) == pre_members.remove(k as int)) by {
                pre_members.index_of_first_ensures(peer);
                assert(pre_members.contains(peer));
                let w = pre_members.index_of_first(peer).unwrap();
                assert(pre_members[w] == peer);
                assert(w == k as int);
            }
        }
        if self.rooms[i].members.len() == 1 {
            self.rooms.remove(i);
            proof {
                assert(self.rooms@ == pre.rooms@.remove(i as int));
                assert forall|kk: int| 0 <= kk < self.rooms@.len() implies (
                #[trigger] self.rooms@[kk]).wf() && (self.rooms@[kk] == pre.rooms@[(if kk < i {
                    kk
                } else {
                    kk + 1
                })]) by {}
                assert(self.wf()) by {
                    Self::lemma_wf_after_room_removal(pre, *self, i as int);
                }
                Self::lemma_frame_after_room_removal(pre, *self, i as int);
                assert(pre_members.len() == 1);
                assert(pre_members[0] == peer);
                assert forall|q: u64| q != peer implies #[trigger] self.in_some_room(q)
                    == pre.in_some_room(q) by {
                    Self::lemma_membership_after_room_removal(pre, *self, i as int, q);
                }
                assert(!self.in_some_room(peer)) by {
                    if self.in_some_room(peer) {
                        let kk = choose|kk: int|
                            0 <= kk < self.rooms@.len() && (
                            #[trigger] self.rooms@[kk]).members@.contains(peer);
                        let kp = if kk < i as int {
                            kk
                        } else {
                            kk + 1
                        };
                        assert(pre.rooms@[kp].members@.contains(peer));
                        pre.lemma_member_of_at_most_one_room(peer, i as int, kp);
                    }
                }
            }
            Ok((rname, snap))
        } else {
            let room = &mut self.rooms[i];
            room.members.remove(k);
            proof {
                assert(self.rooms@[i as int].members@ == pre_members.remove(k as int));
                assert(self.rooms@[i as int].members@.len() == pre_members.len() - 1 >= 1);
                assert forall|kk: int| 0 <= kk < self.rooms@.len() implies (
                #[trigger] self.rooms@[kk]).wf() by {
                    if kk != i {
                        assert(self.rooms@[kk] == pre.rooms@[kk]);
                    }
                }
                assert forall|a: int, b: int, p: u64|
                    0 <= a < self.rooms@.len() && 0 <= b < self.rooms@.len() && a != b implies !(
                #[trigger] self.rooms@[a].members@.contains(p)
                    && #[trigger] self.rooms@[b].members@.contains(p)) by {
                    if self.rooms@[a].members@.contains(p) && self.rooms@[b].members@.contains(
                        p,
                    ) {
                        assert(a == i || pre.rooms@[a].members@.contains(p));
                        assert(b == i || pre.rooms@[b].members@.contains(p));
                        if a == i || b == i {
                            assert(self.rooms@[i as int].members@.contains(p));
                            assert(pre_members.remove(k as int).contains(p));
                            assert(p != peer);
                            assert(pre_members.contains(p));
                        }
                    }
                }
                assert(self.wf());
                self.lemma_room_index_is(i as int);
                Self::lemma_frame_elsewhere(pre, *self, i as int);
                assert(!self.in_some_room(peer)) by {
                    if self.in_some_room(peer) {
                        let kk = choose|kk: int|
                            0 <= kk < self.rooms@.len() && (
                            #[trigger] self.rooms@[kk]).members@.contains(peer);
                        if kk == i {
                            assert(!pre_members.remove(k as int).contains(peer));
                        } else {
                            assert(pre.rooms@[kk].members@.contains(peer));
                            pre.lemma_member_of_at_most_one_room(peer, i as int, kk);
                        }
                    }
                }
                assert forall|q: u64| q != peer implies #[trigger] self.in_some_room(q)
                    == pre.in_some_room(q) by {
                    if pre.in_some_room(q) {
                        let kk = choose|kk: int|
                            0 <= kk < pre.rooms@.len() && (
                            #[trigger] pre.rooms@[kk]).members@.contains(q);
                        if kk == i {
                            assert(pre_members.remove(k as int).contains(q));
                            assert(self.rooms@[i as int].members@.contains(q));
                        } else {
                            assert(self.rooms@[kk].members@.contains(q));
                        }
                        assert(self.in_some_room(q));
                    }
                    if self.in_some_room(q) {
                        let kk = choose|kk: int|
                            0 <= kk < self.rooms@.len() && (
                            #[trigger] self.rooms@[kk]).members@.contains(q);
                        if kk == i {
                            assert(pre_members.contains(q));
                        } else {
                            assert(pre.rooms@[kk].members@.contains(q));
                        }
                        assert(pre.in_some_room(q));
                    }
                }
            }
            Ok((rname, snap))
        }
    }

    /// Removing a whole room keeps the registry well formed.
    proof fn lemma_wf_after_room_removal(pre: Self, post: Self, i: int)
        requires
            pre.wf(),
            0 <= i < pre.rooms@.len(),
            post.rooms@ == pre.rooms@.remove(i),
        ensures
            post.wf(),
    {
        assert forall|k: int| 0 <= k < post.rooms@.len() implies (
        #[trigger] post.rooms@[k]).wf() by {
            assert(post.rooms@[k] == pre.rooms@[(if k < i {
                k
            } else {
                k + 1
            })]);
        }
        assert forall|a: int, b: int|
            0 <= a < post.rooms@.len() && 0 <= b < post.rooms@.len() && a != b implies (
        #[trigger] post.rooms@[a]).name@ != (#[trigger] post.rooms@[b]).name@ by {
            let pa = if a < i {
                a
            } else {
                a + 1
            };
            let pb = if b < i {
                b
            } else {
                b + 1
            };
            assert(post.rooms@[a] == pre.rooms@[pa]);
            assert(post.rooms@[b] == pre.rooms@[pb]);
        }
        assert forall|a: int, b: int, p: u64|
            0 <= a < post.rooms@.len() && 0 <= b < post.rooms@.len() && a != b implies !(
        #[trigger] post.rooms@[a].members@.contains(p)
            && #[trigger] post.rooms@[b].members@.contains(p)) by {
            let pa = if a < i {
                a
            } else {
                a + 1
            };
            let pb = if b < i {
                b
            } else {
                b + 1
            };
            assert(post.rooms@[a] == pre.rooms@[pa]);
            assert(post.rooms@[b] == pre.rooms@[pb]);
        }
    }

    /// After a whole room is removed, every other name resolves exactly
    /// as before.
    proof fn lemma_frame_after_room_removal(pre: Self, post: Self, i: int)
        requires
            pre.wf(),
            post.wf(),
            0 <= i < pre.rooms@.len(),
            post.rooms@ == pre.rooms@.remove(i),
        ensures
            !post.has_room(pre.rooms@[i].name@),
            forall|n: Seq<char>| n != pre.rooms@[i].name@ ==> #[trigger] post.has_room(n)
                == pre.has_room(n),
            forall|n: Seq<char>| n != pre.rooms@[i].name@ && pre.has_room(n)
                ==> #[trigger] post.members(n) == pre.members(n),
    {
        let nm = pre.rooms@[i].name@;
        assert(!post.has_room(nm)) by {
            if post.has_room(nm) {
                let k = post.room_index(nm);
                let kp = if k < i {
                    k
                } else {
                    k + 1
                };
                assert(post.rooms@[k] == pre.rooms@[kp]);
                assert(pre.rooms@[kp].name@ == nm);
                assert(kp != i);
            }
        }
        assert forall|n: Seq<char>| n != nm implies #[trigger] post.has_room(n) == pre.has_room(
            n,
        ) by {
            if pre.has_room(n) {
                let k = pre.room_index(n);
                assert(0 <= k < pre.rooms@.len() && pre.rooms@[k].name@ == n);
                assert(k != i);
                let kq = if k < i {
                    k
                } else {
                    k - 1
                };
                assert(post.rooms@[kq] == pre.rooms@[k]);
                assert(post.has_room(n));
            }
            if post.has_room(n) {
                let k = post.room_index(n);
                let kp = if k < i {
                    k
                } else {
                    k + 1
                };
                assert(post.rooms@[k] == pre.rooms@[kp]);
                assert(pre.has_room(n));
            }
        }
        assert forall|n: Seq<char>| n != nm && pre.has_room(n) implies #[trigger] post.members(n)
            == pre.members(n) by {
            let k = pre.room_index(n);
            assert(0 <= k < pre.rooms@.len() && pre.rooms@[k].name@ == n);
            assert(k != i);
            let kq = if k < i {
                k
            } else {
                k - 1
            };
            assert(post.rooms@[kq] == pre.rooms@[k]);
            pre.lemma_room_index_is(k);
            post.lemma_room_index_is(kq);
        }
    }

    /// Membership across the registry after a single-member room at
    /// position `i` was removed: every peer other than the removed one
    /// keeps its membership status.
    proof fn lemma_membership_after_room_removal(pre: Self, post: Self, i: int, q: u64)
        requires
            pre.wf(),
            0 <= i < pre.rooms@.len(),
            post.rooms@ == pre.rooms@.remove(i),
            !pre.rooms@[i].members@.contains(q),
        ensures
            post.in_some_room(q) == pre.in_some_room(q),
    {
        if pre.in_some_room(q) {
            let k = choose|k: int|
                0 <= k < pre.rooms@.len() && (#[trigger] pre.rooms@[k]).members@.contains(q);
            assert(k != i);
            let kq = if k < i {
                k
            } else {
                k - 1
            };
            assert(post.rooms@[kq] == pre.rooms@[k]);
            assert(post.in_some_room(q));
        }
        if post.in_some_room(q) {
            let k = choose|k: int|
                0 <= k < post.rooms@.len() && (#[trigger] post.rooms@[k]).members@.contains(q);
            let kp = if k < i {
                k
            } else {
                k + 1
            };
            assert(post.rooms@[k] == pre.rooms@[kp]);
            assert(pre.in_some_room(q));
        }
    }

    /// Returns a snapshot of the member list of the room of this name,
    /// or `UnknownRoom` exactly when no such room exists.
    pub fn members_of(&self, name: &String) -> (r: Result<Vec<u64>, ChatError>)
        requires
            self.wf(),
        ensures
            r matches Ok(v) ==> self.has_room(name@) && v@ == self.members(name@),
            r matches Err(e) ==> e == ChatError::UnknownRoom && !self.has_room(name@),
    {
        match self.find_room(name) {
            Some(i) => {
                proof {
                    self.lemma_room_index_is(i as int);
                }
                Ok(copy_u64s(&self.rooms[i].members))
            },
            None => Err(ChatError::UnknownRoom),
        }
    }

    /// Returns the name of the room this peer is in together with a
    /// snapshot of its member list, or `NotInAnyRoom` exactly when the
    /// peer is in no room.
    pub fn room_of_peer(&self, peer: u64) -> (r: Result<(String, Vec<u64>), ChatError>)
        requires
            self.wf(),
        ensures
            r matches Ok(v) ==> self.in_some_room(peer) && v.0@ == self.room_of(peer) && v.1@
                == self.members(v.0@),
            r matches Err(e) ==> e == ChatError::NotInAnyRoom && !self.in_some_room(peer),
    {
        match self.find_peer(peer) {
            Some(i) => {
                proof {
                    self.lemma_room_of_is(peer, i as int);
                }
                Ok((self.rooms[i].name.clone(), copy_u64s(&self.rooms[i].members)))
            },
            None => Err(ChatError::NotInAnyRoom),
        }
    }

    /// Returns the names of all rooms, in creation order.
    pub fn list_room_names(&self) -> (r: Vec<String>)
        ensures
            r@.len() == self.rooms@.len(),
            forall|i: int| 0 <= i < r@.len() ==> (#[trigger] r@[i])@ == self.names()[i],
    {
        let n = self.rooms.len();
        let mut r: Vec<String> = Vec::new();
        let mut i: usize = 0;
        while i < n
            invariant
                n == self.rooms@.len(),
                0 <= i <= n,
                r@.len() == i,
                forall|k: int| 0 <= k < i ==> (#[trigger] r@[k])@ == self.rooms@[k].name@,
            decreases n - i,
        {
            r.push(self.rooms[i].name.clone());
            i = i + 1;
        }
        r
    }
}

} // verus!
