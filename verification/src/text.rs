//! Verified construction of the protocol's text lines.
//!
//! Everything here builds `String`s whose character sequences are pinned
//! down exactly, on top of two trusted append operations of std.

use vstd::prelude::*;

verus! {

/// Relies on `alloc::string::String::push_str`: appends the given
/// string slice onto the end of the string.
pub assume_specification[ String::push_str ](s: &mut String, other: &str)
    ensures
        final(s)@ == old(s)@ + other@,
;

/// Relies on `alloc::string::String::push`: appends the given character
/// to the end of the string.
pub assume_specification[ String::push ](s: &mut String, ch: char)
    ensures
        final(s)@ == old(s)@.push(ch),
;

/// The character of a single decimal digit.
pub open spec fn digit_char(d: nat) -> char {
    if d == 0 {
        '0'
    } else if d == 1 {
        '1'
    } else if d == 2 {
        '2'
    } else if d == 3 {
        '3'
    } else if d == 4 {
        '4'
    } else if d == 5 {
        '5'
    } else if d == 6 {
        '6'
    } else if d == 7 {
        '7'
    } else if d == 8 {
        '8'
    } else {
        '9'
    }
}

/// The decimal representation of a number, most significant digit
/// first, without leading zeros (a single `'0'` for zero).
pub open spec fn dec_rep(n: nat) -> Seq<char>
    decreases n,
{
    if n < 10 {
        seq![digit_char(n)]
    } else {
        dec_rep(n / 10).push(digit_char(n % 10))
    }
}

/// A decimal representation is never empty.
pub proof fn lemma_dec_rep_nonempty(n: nat)
    ensures
        dec_rep(n).len() >= 1,
{
}

/// Returns the character of a single decimal digit.
fn digit_to_char(d: u64) -> (r: char)
    requires
        d < 10,
    ensures
        r == digit_char(d as nat),
{
    match d {
        0 => '0',
        1 => '1',
        2 => '2',
        3 => '3',
        4 => '4',
        5 => '5',
        6 => '6',
        7 => '7',
        8 => '8',
        _ => '9',
    }
}

/// Appends the decimal representation of `n` to `out`.
fn push_decimal(n: u64, out: &mut String)
    ensures
        final(out)@ == old(out)@ + dec_rep(n as nat),
    decreases n,
{
    if n >= 10 {
        push_decimal(n / 10, out);
        out.push(digit_to_char(n % 10));
        proof {
            assert(out@ =~= old(out)@ + dec_rep(n as nat));
        }
    } else {
        out.push(digit_to_char(n));
        proof {
            assert(out@ =~= old(out)@ + dec_rep(n as nat));
        }
    }
}

/// The default nickname generated for a peer.
pub open spec fn default_nick_rep(peer: u64) -> Seq<char> {
    "User"@ + dec_rep(peer as nat)
}

/// Returns the default nickname for a freshly connected peer,
/// `User` followed by the peer identifier in decimal.
pub fn default_nick(peer: u64) -> (r: String)
    ensures
        r@ == default_nick_rep(peer),
        r@.len() > 0,
{
    let mut r = String::new();
    r.push_str("User");
    push_decimal(peer, &mut r);
    proof {
        assert(r@ =~= default_nick_rep(peer));
        lemma_dec_rep_nonempty(peer as nat);
    }
    r
}

/// A chat line as members of a room see it: the sender's nickname in
/// brackets, then the text.
pub open spec fn user_line(nick: Seq<char>, text: Seq<char>) -> Seq<char> {
    "["@ + nick + "]: "@ + text
}

/// A line authored by the server itself.
pub open spec fn server_line(text: Seq<char>) -> Seq<char> {
    "[Server]: "@ + text
}

/// The announcement text when a user enters a room.
pub open spec fn joined_text(nick: Seq<char>) -> Seq<char> {
    nick + " has joined the chatroom."@
}

/// The announcement text when a user leaves a room.
pub open spec fn left_text(nick: Seq<char>) -> Seq<char> {
    nick + " has left the chatroom."@
}

/// Formats a chat line broadcast by a user.
pub fn format_user_line(nick: &String, text: &String) -> (r: String)
    ensures
        r@ == user_line(nick@, text@),
{
    let mut r = String::new();
    r.push_str("[");
    r.push_str(nick.as_str());
    r.push_str("]: ");
    r.push_str(text.as_str());
    proof {
        assert(r@ =~= user_line(nick@, text@));
    }
    r
}

/// Formats a line authored by the server.
pub fn format_server_line(text: &String) -> (r: String)
    ensures
        r@ == server_line(text@),
{
    let mut r = String::new();
    r.push_str("[Server]: ");
    r.push_str(text.as_str());
    proof {
        assert(r@ =~= server_line(text@));
    }
    r
}

/// Formats the announcement text for a user entering a room.
pub fn format_joined(nick: &String) -> (r: String)
    ensures
        r@ == joined_text(nick@),
{
    let mut r = String::new();
    r.push_str(nick.as_str());
    r.push_str(" has joined the chatroom.");
    proof {
        assert(r@ =~= joined_text(nick@));
    }
    r
}

/// Formats the announcement text for a user leaving a room.
pub fn format_left(nick: &String) -> (r: String)
    ensures
        r@ == left_text(nick@),
{
    let mut r = String::new();
    r.push_str(nick.as_str());
    r.push_str(" has left the chatroom.");
    proof {
        assert(r@ =~= left_text(nick@));
    }
    r
}

/// The static reply to the help command.
pub open spec fn help_text() -> Seq<char> {
    "Commands:\n\t/help\n\t/join <channel_name>\n\t/disconnect\n\t/list\n\t/users\n\t/leave\n\t/nick <new_nick>"@
}

/// Returns the static reply to the help command.
pub fn format_help() -> (r: String)
    ensures
        r@ == help_text(),
{
    "Commands:\n\t/help\n\t/join <channel_name>\n\t/disconnect\n\t/list\n\t/users\n\t/leave\n\t/nick <new_nick>".to_owned()
}

/// The given parts joined by the given separator.
pub open spec fn joined(parts: Seq<Seq<char>>, sep: Seq<char>) -> Seq<char>
    decreases parts.len(),
{
    if parts.len() == 0 {
        Seq::empty()
    } else if parts.len() == 1 {
        parts[0]
    } else {
        joined(parts.drop_last(), sep) + sep + parts.last()
    }
}

/// Joins string parts with a separator slice.
pub fn join_parts(parts: &Vec<String>, sep: &str) -> (r: String)
    ensures
        r@ == joined(Seq::new(parts@.len(), |i: int| parts@[i]@), sep@),
{
    let ghost views = Seq::new(parts@.len(), |i: int| parts@[i]@);
    let n = parts.len();
    let mut r = String::new();
    let mut i: usize = 0;
    while i < n
        invariant
            n == parts@.len(),
            views == Seq::new(parts@.len(), |k: int| parts@[k]@),
            0 <= i <= n,
            r@ == joined(views.take(i as int), sep@),
        decreases n - i,
    {
        if i > 0 {
            r.push_str(sep);
        }
        r.push_str(parts[i].as_str());
        proof {
            let t = views.take(i + 1);
            assert(t.drop_last() =~= views.take(i as int));
            assert(t.last() == views[i as int]);
            if i == 0 {
                assert(r@ =~= joined(t, sep@));
            } else {
                assert(r@ =~= joined(t, sep@));
            }
        }
        i = i + 1;
    }
    proof {
        assert(views.take(n as int) =~= views);
    }
    r
}

} // verus!
