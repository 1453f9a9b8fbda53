//! The user registry: each connected peer's display nickname.
//!
//! Nicknames are non-empty and mutable; uniqueness across users is
//! deliberately not enforced, so two users may share a nickname.

use vstd::prelude::*;

use crate::errors::ChatError;

verus! {

/// One registered user: a peer and its current nickname.
pub struct UserEntry {
    pub peer: u64,
    pub nick: String,
}

/// The nicknames of all registered users, in registration order.
pub struct UserRegistry {
    pub entries: Vec<UserEntry>,
}

impl UserRegistry {
    /// No peer is registered twice, and every nickname is non-empty.
    pub open spec fn wf(&self) -> bool {
        &&& forall|i: int, j: int|
            0 <= i < self.entries@.len() && 0 <= j < self.entries@.len() && i != j
                ==> (#[trigger] self.entries@[i]).peer != (#[trigger] self.entries@[j]).peer
        &&& forall|i: int| 0 <= i < self.entries@.len()
            ==> (#[trigger] self.entries@[i]).nick@.len() > 0
    }

    /// Whether this peer has a registered user.
    pub open spec fn has_user(&self, peer: u64) -> bool {
        exists|i: int| 0 <= i < self.entries@.len() && (#[trigger] self.entries@[i]).peer == peer
    }

    /// The position of this peer's entry (meaningful only when
    /// `has_user(peer)` holds; unique under `wf`).
    pub open spec fn user_index(&self, peer: u64) -> int {
        choose|i: int| 0 <= i < self.entries@.len() && (#[trigger] self.entries@[i]).peer == peer
    }

    /// This peer's current nickname.
    pub open spec fn nick_of(&self, peer: u64) -> Seq<char> {
        self.entries@[self.user_index(peer)].nick@
    }

    /// Under `wf`, a position that carries a peer is the position that
    /// the peer resolves to.
    pub proof fn lemma_user_index_is(&self, i: int)
        requires
            self.wf(),
            0 <= i < self.entries@.len(),
        ensures
            self.has_user(self.entries@[i].peer),
            self.user_index(self.entries@[i].peer) == i,
            self.nick_of(self.entries@[i].peer) == self.entries@[i].nick@,
    {
        assert(self.has_user(self.entries@[i].peer));
        let j = self.user_index(self.entries@[i].peer);
        assert(0 <= j < self.entries@.len() && self.entries@[j].peer == self.entries@[i].peer);
    }

    /// Creates an empty registry.
    pub fn new() -> (r: UserRegistry)
        ensures
            r.wf(),
            r.entries@.len() == 0,
    {
        UserRegistry { entries: Vec::new() }
    }

    /// Returns the position of this peer's entry, if it has one.
    fn find_user(&self, peer: u64) -> (r: Option<usize>)
        ensures
            match r {
                Some(i) => 0 <= i < self.entries@.len() && self.entries@[i as int].peer == peer,
                None => !self.has_user(peer),
            },
    {
        let n = self.entries.len();
        let mut i: usize = 0;
        while i < n
            invariant
                n == self.entries@.len(),
                0 <= i <= n,
                forall|k: int| 0 <= k < i ==> (#[trigger] self.entries@[k]).peer != peer,
            decreases n - i,
        {
            if self.entries[i].peer == peer {
                return Some(i);
            }
            i = i + 1;
        }
        None
    }

    /// Returns whether this peer has a registered user.
    pub fn contains(&self, peer: u64) -> (r: bool)
        ensures
            r == self.has_user(peer),
    {
        self.find_user(peer).is_some()
    }

    /// Registers a peer under a non-empty nickname.  The peer must not
    /// be registered yet; the connection lifecycle guarantees this.
    pub fn register(&mut self, peer: u64, nick: String)
        requires
            old(self).wf(),
            !old(self).has_user(peer),
            nick@.len() > 0,
        ensures
            final(self).wf(),
            final(self).has_user(peer),
            final(self).nick_of(peer) == nick@,
            forall|q: u64| q != peer ==> #[trigger] final(self).has_user(q) == old(self).has_user(
                q,
            ),
            forall|q: u64| q != peer && old(self).has_user(q) ==> #[trigger] final(self).nick_of(
                q,
            ) == old(self).nick_of(q),
    {
        let ghost pre = *self;
        self.entries.push(UserEntry { peer, nick });
        proof {
            let n = pre.entries@.len() as int;
            assert forall|i: int, j: int|
                0 <= i < self.entries@.len() && 0 <= j < self.entries@.len() && i != j implies (
            #[trigger] self.entries@[i]).peer != (#[trigger] self.entries@[j]).peer by {
                if i == n {
                    assert(self.entries@[j] == pre.entries@[j]);
                    assert(!pre.has_user(peer));
                }
                if j == n {
                    assert(self.entries@[i] == pre.entries@[i]);
                    assert(!pre.has_user(peer));
                }
            }
            assert(self.wf());
            self.lemma_user_index_is(n);
            Self::lemma_frame_users(pre, *self, n);
        }
    }

    /// After a change confined to the entry at one position, every
    /// other peer resolves exactly as before; the same holds when a
    /// fresh entry is appended.
    proof fn lemma_frame_users(pre: Self, post: Self, i: int)
        requires
            pre.wf(),
            post.wf(),
            0 <= i < post.entries@.len(),
            pre.entries@.len() <= post.entries@.len() <= pre.entries@.len() + 1,
            post.entries@.len() == pre.entries@.len() ==> i < pre.entries@.len()
                && post.entries@[i].peer == pre.entries@[i].peer,
            post.entries@.len() == pre.entries@.len() + 1 ==> i == pre.entries@.len(),
            forall|k: int| 0 <= k < pre.entries@.len() && k != i ==> post.entries@[k]
                == pre.entries@[k],
        ensures
            forall|q: u64| q != post.entries@[i].peer ==> #[trigger] post.has_user(q)
                == pre.has_user(q),
            forall|q: u64| q != post.entries@[i].peer && pre.has_user(q)
                ==> #[trigger] post.nick_of(q) == pre.nick_of(q),
    {
        let p = post.entries@[i].peer;
        assert forall|q: u64| q != p implies #[trigger] post.has_user(q) == pre.has_user(q) by {
            if pre.has_user(q) {
                let k = pre.user_index(q);
                assert(0 <= k < pre.entries@.len() && pre.entries@[k].peer == q);
                if k == i {
                    assert(post.entries@.len() == pre.entries@.len());
                } else {
                    assert(post.entries@[k].peer == q);
                }
                assert(post.has_user(q));
            }
            if post.has_user(q) {
                let k = post.user_index(q);
                assert(0 <= k < post.entries@.len() && post.entries@[k].peer == q);
                assert(k != i);
                assert(pre.entries@[k].peer == q);
                assert(pre.has_user(q));
            }
        }
        assert forall|q: u64| q != p && pre.has_user(q) implies #[trigger] post.nick_of(q)
            == pre.nick_of(q) by {
            let k = pre.user_index(q);
            assert(0 <= k < pre.entries@.len() && pre.entries@[k].peer == q);
            if k == i {
                assert(post.entries@.len() == pre.entries@.len());
            }
            assert(k != i);
            assert(post.entries@[k] == pre.entries@[k]);
            pre.lemma_user_index_is(k);
            post.lemma_user_index_is(k);
        }
    }

    /// Changes this peer's nickname to a non-empty replacement.  Fails
    /// with `UnknownUser`, leaving the registry unchanged, exactly when
    /// the peer is not registered.
    pub fn rename(&mut self, peer: u64, nick: String) -> (r: Result<(), ChatError>)
        requires
            old(self).wf(),
            nick@.len() > 0,
        ensures
            final(self).wf(),
            r matches Err(e) ==> e == ChatError::UnknownUser && *final(self) == *old(self),
            r matches Err(e) <==> !old(self).has_user(peer),
            r matches Ok(v) ==> {
                &&& final(self).has_user(peer)
                &&& final(self).nick_of(peer) == nick@
                &&& forall|q: u64| q != peer
                    ==> #[trigger] final(self).has_user(q) == old(self).has_user(q)
                &&& forall|q: u64| q != peer && old(self).has_user(q)
                    ==> #[trigger] final(self).nick_of(q) == old(self).nick_of(q)
            },
    {
        let ghost pre = *self;
        let i = match self.find_user(peer) {
            Some(i) => i,
            None => {
                return Err(ChatError::UnknownUser);
            },
        };
        let entry = &mut self.entries[i];
        entry.nick = nick;
        proof {
            assert forall|a: int, b: int|
                0 <= a < self.entries@.len() && 0 <= b < self.entries@.len() && a != b implies (
            #[trigger] self.entries@[a]).peer != (#[trigger] self.entries@[b]).peer by {
                if a != i {
                    assert(self.entries@[a] == pre.entries@[a]);
                }
                if b != i {
                    assert(self.entries@[b] == pre.entries@[b]);
                }
            }
            assert forall|a: int| 0 <= a < self.entries@.len() implies (
            #[trigger] self.entries@[a]).nick@.len() > 0 by {
                if a != i {
                    assert(self.entries@[a] == pre.entries@[a]);
                }
            }
            assert(self.wf());
            self.lemma_user_index_is(i as int);
            Self::lemma_frame_users(pre, *self, i as int);
        }
        Ok(())
    }

    /// Returns a copy of this peer's current nickname.  Fails with
    /// `UnknownUser` exactly when the peer is not registered.
    pub fn lookup(&self, peer: u64) -> (r: Result<String, ChatError>)
        requires
            self.wf(),
        ensures
            r matches Ok(nick) ==> self.has_user(peer) && nick@ == self.nick_of(peer),
            r matches Err(e) ==> e == ChatError::UnknownUser && !self.has_user(peer),
    {
        match self.find_user(peer) {
            Some(i) => {
                proof {
                    self.lemma_user_index_is(i as int);
                }
                Ok(self.entries[i].nick.clone())
            },
            None => Err(ChatError::UnknownUser),
        }
    }

    /// Removes this peer's user.  Fails with `UnknownUser`, leaving the
    /// registry unchanged, exactly when the peer is not registered.
    pub fn unregister(&mut self, peer: u64) -> (r: Result<(), ChatError>)
        requires
            old(self).wf(),
        ensures
            final(self).wf(),
            r matches Err(e) ==> e == ChatError::UnknownUser && *final(self) == *old(self),
            r matches Err(e) <==> !old(self).has_user(peer),
            r matches Ok(v) ==> {
                &&& !final(self).has_user(peer)
                &&& forall|q: u64| q != peer
                    ==> #[trigger] final(self).has_user(q) == old(self).has_user(q)
                &&& forall|q: u64| q != peer && old(self).has_user(q)
                    ==> #[trigger] final(self).nick_of(q) == old(self).nick_of(q)
            },
    {
        let ghost pre = *self;
        let i = match self.find_user(peer) {
            Some(i) => i,
            None => {
                return Err(ChatError::UnknownUser);
            },
        };
        self.entries.remove(i);
        proof {
            assert forall|a: int, b: int|
                0 <= a < self.entries@.len() && 0 <= b < self.entries@.len() && a != b implies (
            #[trigger] self.entries@[a]).peer != (#[trigger] self.entries@[b]).peer by {
                let pa = if a < i {
                    a
                } else {
                    a + 1
                };
                let pb = if b < i {
                    b
                } else {
                    b + 1
                };
                assert(self.entries@[a] == pre.entries@[a as int] || self.entries@[a]
                    == pre.entries@[pa]);
                assert(self.entries@[a] == pre.entries@[pa]);
                assert(self.entries@[b] == pre.entries@[pb]);
            }
            assert forall|a: int| 0 <= a < self.entries@.len() implies (
            #[trigger] self.entries@[a]).nick@.len() > 0 by {
                let pa = if a < i {
                    a
                } else {
                    a + 1
                };
                assert(self.entries@[a] == pre.entries@[pa]);
            }
            assert(self.wf());
            assert(!self.has_user(peer)) by {
                if self.has_user(peer) {
                    let k = self.user_index(peer);
                    let kp = if k < i {
                        k
                    } else {
                        k + 1
                    };
                    assert(self.entries@[k] == pre.entries@[kp]);
                    assert(pre.entries@[kp].peer == peer);
                    assert(pre.entries@[i as int].peer == peer);
                }
            }
            assert forall|q: u64| q != peer implies #[trigger] self.has_user(q) == pre.has_user(
                q,
            ) by {
                if pre.has_user(q) {
                    let k = pre.user_index(q);
                    assert(0 <= k < pre.entries@.len() && pre.entries@[k].peer == q);
                    assert(k != i);
                    let kq = if k < i {
                        k
                    } else {
                        k - 1
                    };
                    assert(self.entries@[kq] == pre.entries@[k]);
                    assert(self.has_user(q));
                }
                if self.has_user(q) {
                    let k = self.user_index(q);
                    let kp = if k < i {
                        k
                    } else {
                        k + 1
                    };
                    assert(self.entries@[k] == pre.entries@[kp]);
                    assert(pre.has_user(q));
                }
            }
            assert forall|q: u64| q != peer && pre.has_user(q) implies #[trigger] self.nick_of(q)
                == pre.nick_of(q) by {
                let k = pre.user_index(q);
                assert(0 <= k < pre.entries@.len() && pre.entries@[k].peer == q);
                assert(k != i);
                let kq = if k < i {
                    k
                } else {
                    k - 1
                };
                assert(self.entries@[kq] == pre.entries@[k]);
                pre.lemma_user_index_is(k);
                self.lemma_user_index_is(kq);
            }
        }
        Ok(())
    }
}

} // verus!
