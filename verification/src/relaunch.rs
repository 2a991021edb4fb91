//! Starting the updated binary after this process leaves: back into the same room, with the
//! flags this launch was given.
use vstd::prelude::*;

use crate::cli::WindowArgs;
use crate::text::{decimal, decimal_string, owned};

verus! {

/// The texts of a list of strings.
pub open spec fn texts(v: Seq<String>) -> Seq<Seq<char>> {
    v.map_values(|s: String| s@)
}

/// `join <ticket>` followed by the present flags, or nothing without a ticket.
pub open spec fn relaunch_line(
    ticket: Option<Seq<char>>,
    nickname: Option<Seq<char>>,
    fps: Option<u32>,
    no_relay: bool,
) -> Seq<Seq<char>> {
    match ticket {
        None => Seq::empty(),
        Some(t) => {
            let nick_part = match nickname {
                Some(n) => seq!["--nickname"@, n],
                None => Seq::empty(),
            };
            let fps_part = match fps {
                Some(f) => seq!["--fps"@, decimal(f as nat)],
                None => Seq::empty(),
            };
            let relay_part = if no_relay {
                seq!["--no-relay"@]
            } else {
                Seq::empty()
            };
            seq!["join"@, t] + nick_part + fps_part + relay_part
        },
    }
}

/// Each flag of the launch survives into the relaunch line on its own: `join` and the ticket,
/// then `--nickname` with its value when one was given, then `--fps` with the decimal rate
/// whenever a rate was given (whatever the other flags), then `--no-relay` when asked for, and
/// nothing else. Without a ticket there is nothing to relaunch into.
pub proof fn lemma_relaunch_keeps_every_flag(
    ticket: Option<Seq<char>>,
    nickname: Option<Seq<char>>,
    fps: Option<u32>,
    no_relay: bool,
)
    ensures
        ticket is None ==> relaunch_line(ticket, nickname, fps, no_relay).len() == 0,
        ticket matches Some(t) ==> {
            let line = relaunch_line(ticket, nickname, fps, no_relay);
            let at_fps: int = if nickname is Some { 4 } else { 2 };
            &&& line.len() == at_fps + (if fps is Some { 2int } else { 0int }) + (if no_relay { 1int } else { 0int })
            &&& line[0] == "join"@
            &&& line[1] == t
            &&& nickname matches Some(n) ==> line[2] == "--nickname"@ && line[3] == n
            &&& fps matches Some(f) ==> line[at_fps] == "--fps"@ && line[at_fps + 1] == decimal(f as nat)
            &&& no_relay ==> line[line.len() - 1] == "--no-relay"@
        },
{
}

/// The nickname flag's value as text.
pub open spec fn opt_text(o: Option<String>) -> Option<Seq<char>> {
    match o {
        Some(s) => Some(s@),
        None => None,
    }
}

/// The ticket as text.
pub open spec fn opt_str_text(o: Option<&str>) -> Option<Seq<char>> {
    match o {
        Some(s) => Some(s@),
        None => None,
    }
}

/// `join <ticket>` with this launch's flags when a room was open. A bare `brp` takes no flags,
/// so the start screen relaunches without any.
pub fn relaunch_args(ticket: Option<&str>, args: &WindowArgs) -> (out: Vec<String>)
    ensures
        texts(out@) == relaunch_line(opt_str_text(ticket), opt_text(args.nickname), args.fps, args.no_relay),
{
    let t = match ticket {
        None => {
            let empty: Vec<String> = Vec::new();
            assert(texts(empty@) =~= Seq::<Seq<char>>::empty());
            return empty;
        },
        Some(t) => t,
    };
    let mut out: Vec<String> = Vec::new();
    out.push(owned("join"));
    out.push(owned(t));
    let ghost head = seq!["join"@, t@];
    assert(texts(out@) =~= head);
    let ghost nick_part: Seq<Seq<char>> = Seq::empty();
    match &args.nickname {
        Some(nickname) => {
            out.push(owned("--nickname"));
            out.push(owned(nickname.as_str()));
            proof {
                nick_part = seq!["--nickname"@, nickname@];
            }
        },
        None => {},
    }
    assert(texts(out@) =~= head + nick_part);
    let ghost fps_part: Seq<Seq<char>> = Seq::empty();
    match args.fps {
        Some(fps) => {
            out.push(owned("--fps"));
            out.push(decimal_string(fps as u64));
            proof {
                fps_part = seq!["--fps"@, decimal(fps as nat)];
            }
        },
        None => {},
    }
    assert(texts(out@) =~= head + nick_part + fps_part);
    if args.no_relay {
        out.push(owned("--no-relay"));
    }
    assert(texts(out@) =~= relaunch_line(opt_str_text(ticket), opt_text(args.nickname), args.fps, args.no_relay));
    out
}

/// The process to start once this one has left the room.
#[derive(Debug, Clone, PartialEq, Eq)]
pub struct Relaunch {
    /// The installed binary, which the swap has already repointed at the new version.
    pub exe: String,
    /// The whole command line for the new process, already built; nothing is added at spawn.
    pub args: Vec<String>,
}

impl Relaunch {
    /// `exe` is the install's path captured at startup, which the swap has just repointed at the
    /// new binary.
    pub fn new(exe: &str, ticket: Option<&str>, args: &WindowArgs) -> (r: Relaunch)
        ensures
            r.exe@ == exe@,
            texts(r.args@) == relaunch_line(opt_str_text(ticket), opt_text(args.nickname), args.fps, args.no_relay),
    {
        Relaunch { exe: owned(exe), args: relaunch_args(ticket, args) }
    }
}

} // verus!
