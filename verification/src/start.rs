//! The start screen: nickname and ticket entry with Create and Join, shown until a room is open,
//! plus the text helpers its recent-rooms list uses.
use vstd::prelude::*;

use crate::text::{chars_of, concat, decimal, decimal_string, push_char, string_from_chars, trim, trimmed};

verus! {

/// Which button the user clicked.
#[derive(Debug, Clone, Copy, PartialEq, Eq, Structural)]
pub enum StartAction {
    Create,
    Join,
    OpenSettings,
}

/// What the user asked for: a fresh room, or a seat in an existing one behind `T`, the ticket.
#[derive(Debug, Clone, PartialEq, Eq)]
pub enum Intent<T> {
    Create,
    Join(T),
}

/// The form's fields, whether an open is in flight, and the last error to show.
#[derive(Debug, Clone, PartialEq, Eq)]
pub struct StartState {
    pub nickname: String,
    pub ticket: String,
    pub connecting: bool,
    pub error: String,
}

impl StartState {
    /// A fresh form with `nickname` filled in.
    pub fn new(nickname: String) -> (s: StartState)
        ensures
            s.nickname == nickname,
            s.ticket@ == Seq::<char>::empty(),
            !s.connecting,
            s.error@ == Seq::<char>::empty(),
    {
        StartState { nickname, ticket: String::new(), connecting: false, error: String::new() }
    }

    /// The ticket field without surrounding white space: what a join parses.
    pub fn ticket_text(&self) -> (t: String)
        ensures
            t@ == trimmed(self.ticket@),
    {
        trim(self.ticket.as_str())
    }

    /// Turns a click into an intent, or refuses it: nothing for the settings button or while an
    /// open is in flight, and a join needs a ticket that parses; `parsed` is the outcome of
    /// parsing [`Self::ticket_text`]. On success the screen is marked connecting.
    pub fn submit<T>(&mut self, action: StartAction, parsed: Result<T, String>) -> (r: Option<Intent<T>>)
        ensures
            (action == StartAction::OpenSettings || old(self).connecting) ==> r is None && *final(self)
                == *old(self),
            (action == StartAction::Create && !old(self).connecting) ==> r == Some(Intent::<T>::Create)
                && final(self).connecting && final(self).error@ == Seq::<char>::empty()
                && final(self).nickname == old(self).nickname && final(self).ticket == old(self).ticket,
            (action == StartAction::Join && !old(self).connecting) ==> match parsed {
                Ok(t) => r == Some(Intent::Join(t)) && final(self).connecting && final(self).error@
                    == Seq::<char>::empty(),
                Err(e) => r is None && !final(self).connecting && final(self).error@ == "invalid ticket: "@
                    + e@,
            } && final(self).nickname == old(self).nickname && final(self).ticket == old(self).ticket,
    {
        if action == StartAction::OpenSettings {
            return None;
        }
        if self.connecting {
            return None;
        }
        let intent = match action {
            StartAction::Create => Intent::Create,
            _ => match parsed {
                Ok(ticket) => Intent::Join(ticket),
                Err(error) => {
                    self.error = concat("invalid ticket: ", error.as_str());
                    return None;
                },
            },
        };
        self.error = String::new();
        self.connecting = true;
        Some(intent)
    }

    /// The open failed: back to the form with the reason shown.
    pub fn failed(&mut self, message: String)
        ensures
            !final(self).connecting,
            final(self).error == message,
            final(self).nickname == old(self).nickname,
            final(self).ticket == old(self).ticket,
    {
        self.connecting = false;
        self.error = message;
    }
}

/// Characters of a ticket shown at each end on the start screen; the middle is elided.
pub const TICKET_HEAD: usize = 8;
pub const TICKET_TAIL: usize = 6;

/// How long ago `then_unix` was at `now_unix`: "just now" under a minute, then whole minutes,
/// hours, and days, each rounded down. A time in the future is "just now".
pub open spec fn age_text(then_unix: u64, now_unix: u64) -> Seq<char> {
    let seconds: nat = if now_unix > then_unix { (now_unix - then_unix) as nat } else { 0 };
    let minutes = seconds / 60;
    let hours = minutes / 60;
    let days = hours / 24;
    if minutes == 0 {
        "just now"@
    } else if hours == 0 {
        decimal(minutes) + " min ago"@
    } else if days == 0 {
        decimal(hours) + " h ago"@
    } else {
        decimal(days) + " d ago"@
    }
}

/// "just now", then minutes, hours, days.
pub fn relative_age(then_unix: u64, now_unix: u64) -> (text: String)
    ensures
        text@ == age_text(then_unix, now_unix),
{
    let seconds = now_unix.saturating_sub(then_unix);
    let minutes = seconds / 60;
    let hours = minutes / 60;
    let days = hours / 24;
    if minutes == 0 {
        "just now".to_owned()
    } else if hours == 0 {
        let n = decimal_string(minutes);
        concat(n.as_str(), " min ago")
    } else if days == 0 {
        let n = decimal_string(hours);
        concat(n.as_str(), " h ago")
    } else {
        let n = decimal_string(days);
        concat(n.as_str(), " d ago")
    }
}

/// The ticket as the recent-rooms list shows it: whole when short, else its first and last
/// characters around an ellipsis.
pub open spec fn abbreviated(t: Seq<char>) -> Seq<char> {
    if t.len() <= TICKET_HEAD + TICKET_TAIL + 1 {
        t
    } else {
        t.take(TICKET_HEAD as int) + seq!['\u{2026}'] + t.skip(t.len() - TICKET_TAIL)
    }
}

/// The ticket's ends with the middle elided, so a row fits and two tickets stay tellable apart.
pub fn abbreviate_ticket(ticket: &str) -> (shown: String)
    ensures
        shown@ == abbreviated(ticket@),
{
    let chars = chars_of(ticket);
    let n = chars.len();
    if n <= TICKET_HEAD + TICKET_TAIL + 1 {
        return ticket.to_owned();
    }
    let mut out = String::new();
    let mut i: usize = 0;
    while i < TICKET_HEAD
        invariant
            i <= TICKET_HEAD,
            n == chars@.len(),
            n > TICKET_HEAD + TICKET_TAIL + 1,
            out@ == chars@.take(i as int),
        decreases TICKET_HEAD - i,
    {
        push_char(&mut out, chars[i]);
        assert(chars@.take(i + 1) =~= chars@.take(i as int).push(chars@[i as int]));
        i = i + 1;
    }
    push_char(&mut out, '\u{2026}');
    let start = n - TICKET_TAIL;
    let mut j: usize = start;
    let ghost head = out@;
    assert(chars@.subrange(start as int, start as int) =~= Seq::<char>::empty());
    while j < n
        invariant
            start <= j <= n,
            start == n - TICKET_TAIL,
            n == chars@.len(),
            out@ == head + chars@.subrange(start as int, j as int),
        decreases n - j,
    {
        push_char(&mut out, chars[j]);
        assert(chars@.subrange(start as int, j + 1) =~= chars@.subrange(start as int, j as int).push(chars@[j as int]));
        j = j + 1;
    }
    assert(chars@.skip(start as int) =~= chars@.subrange(start as int, n as int));
    out
}

} // verus!
