//! Fan-out planning: which peers receive which line.
//!
//! The engine never writes to a socket.  Each operation that talks to
//! peers returns a list of [`Delivery`] values computed from a detached
//! membership snapshot; the caller performs the writes afterwards,
//! without holding any registry borrow.

use vstd::prelude::*;

use crate::errors::ChatError;
use crate::text::format_server_line;
use crate::text::format_user_line;
use crate::text::server_line;
use crate::text::user_line;
use crate::users::UserRegistry;

verus! {

/// One line to be written to one peer.
pub struct Delivery {
    pub to: u64,
    pub line: String,
}

/// The members that receive a fan-out: the snapshot in order, with the
/// excluded peer (if any) left out.
pub open spec fn recipients(members: Seq<u64>, exclude: Option<u64>) -> Seq<u64> {
    match exclude {
        Some(p) => members.filter(|q: u64| q != p),
        None => members,
    }
}

/// Plans one delivery of `line` to every member of the snapshot except
/// the optionally excluded peer.
pub fn announce_to_room(members: &Vec<u64>, line: &String, exclude: Option<u64>) -> (r: Vec<
    Delivery,
>)
    ensures
        r@.len() == recipients(members@, exclude).len(),
        forall|i: int| 0 <= i < r@.len() ==> (#[trigger] r@[i]).to == recipients(
            members@,
            exclude,
        )[i] && r@[i].line@ == line@,
{
    let n = members.len();
    let mut r: Vec<Delivery> = Vec::new();
    let mut i: usize = 0;
    while i < n
        invariant
            n == members@.len(),
            0 <= i <= n,
            r@.len() == recipients(members@.take(i as int), exclude).len(),
            forall|k: int| 0 <= k < r@.len() ==> (#[trigger] r@[k]).to == recipients(
                members@.take(i as int),
                exclude,
            )[k] && r@[k].line@ == line@,
        decreases n - i,
    {
        let m = members[i];
        let skip = match exclude {
            Some(p) => m == p,
            None => false,
        };
        if !skip {
            r.push(Delivery { to: m, line: line.clone() });
        }
        proof {
            reveal(Seq::filter);
            let t = members@.take(i + 1);
            assert(t.drop_last() =~= members@.take(i as int));
            assert(t.last() == members@[i as int]);
        }
        i = i + 1;
    }
    proof {
        assert(members@.take(n as int) =~= members@);
    }
    r
}

/// Plans the broadcast of a user-authored message: every member of the
/// snapshot except the sender receives the text prefixed with the
/// sender's current nickname.  Fails with `UnknownUser` exactly when
/// the sender has no registered user.
pub fn broadcast_as_user(users: &UserRegistry, sender: u64, members: &Vec<u64>, text: &String) -> (r:
    Result<Vec<Delivery>, ChatError>)
    requires
        users.wf(),
    ensures
        r matches Err(e) ==> e == ChatError::UnknownUser && !users.has_user(sender),
        r matches Ok(ds) ==> {
            &&& users.has_user(sender)
            &&& ds@.len() == recipients(members@, Some(sender)).len()
            &&& forall|i: int| 0 <= i < ds@.len() ==> (#[trigger] ds@[i]).to == recipients(
                members@,
                Some(sender),
            )[i] && ds@[i].line@ == user_line(users.nick_of(sender), text@)
        },
{
    let nick = match users.lookup(sender) {
        Ok(nick) => nick,
        Err(e) => {
            return Err(e);
        },
    };
    let line = format_user_line(&nick, text);
    Ok(announce_to_room(members, &line, Some(sender)))
}

/// Plans a server announcement: every member of the snapshot receives
/// the text prefixed with the server tag, with no exclusion.
pub fn announce_as_server(members: &Vec<u64>, text: &String) -> (r: Vec<Delivery>)
    ensures
        r@.len() == members@.len(),
        forall|i: int| 0 <= i < r@.len() ==> (#[trigger] r@[i]).to == members@[i] && r@[i].line@
            == server_line(text@),
{
    let line = format_server_line(text);
    announce_to_room(members, &line, None)
}

} // verus!
