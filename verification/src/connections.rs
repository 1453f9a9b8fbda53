//! The connection registry: the set of peers that currently hold an
//! open connection.
//!
//! The transport handles themselves live with the caller; the registry
//! records which peer identifiers are connected, so that every other
//! component can decide against a consistent membership view.

use vstd::prelude::*;

use crate::errors::ChatError;
use crate::seqs::contains_u64;
use crate::seqs::index_of_u64;
use crate::seqs::lemma_push_keeps_no_duplicates;
use crate::seqs::lemma_remove_keeps_no_duplicates;

verus! {

/// The peers that currently hold an open connection, in accept order.
pub struct ConnectionRegistry {
    pub peers: Vec<u64>,
}

impl ConnectionRegistry {
    /// No peer is registered twice.
    pub open spec fn wf(&self) -> bool {
        self.peers@.no_duplicates()
    }

    /// Whether this peer is registered.
    pub open spec fn is_registered(&self, peer: u64) -> bool {
        self.peers@.contains(peer)
    }

    /// Creates an empty registry.
    pub fn new() -> (r: ConnectionRegistry)
        ensures
            r.wf(),
            r.peers@.len() == 0,
    {
        ConnectionRegistry { peers: Vec::new() }
    }

    /// Returns whether this peer is registered.
    pub fn contains(&self, peer: u64) -> (r: bool)
        ensures
            r == self.is_registered(peer),
    {
        contains_u64(&self.peers, peer)
    }

    /// Registers a peer.  Fails with `DuplicateConnection`, leaving the
    /// registry unchanged, exactly when the peer is already registered.
    pub fn register(&mut self, peer: u64) -> (r: Result<(), ChatError>)
        requires
            old(self).wf(),
        ensures
            final(self).wf(),
            r matches Err(e) ==> e == ChatError::DuplicateConnection && *final(self) == *old(
                self,
            ),
            r matches Err(e) <==> old(self).is_registered(peer),
            r matches Ok(v) ==> final(self).peers@ == old(self).peers@.push(peer),
            forall|q: u64| #[trigger] final(self).is_registered(q) == (old(self).is_registered(q)
                || (r matches Ok(v) && q == peer)),
    {
        let ghost pre = self.peers@;
        if contains_u64(&self.peers, peer) {
            return Err(ChatError::DuplicateConnection);
        }
        self.peers.push(peer);
        proof {
            lemma_push_keeps_no_duplicates(pre, peer);
            assert forall|q: u64| #[trigger] self.peers@.contains(q) == (pre.contains(q) || q
                == peer) by {
                if pre.contains(q) {
                    let w = choose|w: int| 0 <= w < pre.len() && pre[w] == q;
                    assert(self.peers@[w] == q);
                }
                if q == peer {
                    assert(self.peers@[pre.len() as int] == peer);
                }
                if self.peers@.contains(q) {
                    let w = choose|w: int| 0 <= w < self.peers@.len() && self.peers@[w] == q;
                    if w < pre.len() {
                        assert(pre[w] == q);
                    }
                }
            }
        }
        Ok(())
    }

    /// Unregisters a peer.  Fails with `UnknownConnection`, leaving the
    /// registry unchanged, exactly when the peer is not registered.
    pub fn unregister(&mut self, peer: u64) -> (r: Result<(), ChatError>)
        requires
            old(self).wf(),
        ensures
            final(self).wf(),
            r matches Err(e) ==> e == ChatError::UnknownConnection && *final(self) == *old(self),
            r matches Err(e) <==> !old(self).is_registered(peer),
            r matches Ok(v) ==> !final(self).is_registered(peer),
            forall|q: u64| q != peer ==> #[trigger] final(self).is_registered(q) == old(
                self,
            ).is_registered(q),
    {
        let ghost pre = self.peers@;
        if !contains_u64(&self.peers, peer) {
            return Err(ChatError::UnknownConnection);
        }
        let k = index_of_u64(&self.peers, peer);
        self.peers.remove(k);
        proof {
            lemma_remove_keeps_no_duplicates(pre, k as int);
        }
        Ok(())
    }
}

} // verus!
