//! The main window's event-loop decisions: when to wake for the next repaint, and what a
//! successful open teaches the settings.
use vstd::prelude::*;

use crate::settings::{normalised_nickname, remembered, rooms_view, Settings};
use crate::text::trimmed;

verus! {

/// The earlier of two optional deadlines; either alone when the other is absent.
pub open spec fn earlier(a: Option<u64>, b: Option<u64>) -> Option<u64> {
    match (a, b) {
        (Some(x), Some(y)) => Some(if x <= y { x } else { y }),
        (Some(x), None) => Some(x),
        (None, y) => y,
    }
}

/// Keeps the earliest requested repaint across windows: the pending one or a new request.
pub fn earliest_repaint(pending: Option<u64>, requested: Option<u64>) -> (r: Option<u64>)
    ensures
        r == earlier(pending, requested),
{
    match (pending, requested) {
        (Some(a), Some(b)) => Some(if a <= b { a } else { b }),
        (Some(a), None) => Some(a),
        (None, b) => b,
    }
}

/// What the event loop does before it sleeps.
#[derive(Debug, Clone, Copy, PartialEq, Eq, Structural)]
pub enum WakePlan {
    /// The repaint is due: forget it, redraw every window, and sleep until the next event.
    RedrawNow,
    /// Sleep until the repaint deadline unless an event comes first.
    WaitUntil(u64),
    /// Nothing scheduled: sleep until the next event.
    Wait,
}

/// The plan for a loop about to sleep at `now` with `next` the pending repaint deadline.
pub fn wake_plan(next: Option<u64>, now: u64) -> (plan: WakePlan)
    ensures
        plan == match next {
            Some(d) => if d <= now { WakePlan::RedrawNow } else { WakePlan::WaitUntil(d) },
            None => WakePlan::Wait,
        },
{
    match next {
        Some(deadline) => if deadline <= now {
            WakePlan::RedrawNow
        } else {
            WakePlan::WaitUntil(deadline)
        },
        None => WakePlan::Wait,
    }
}

/// What a successful open teaches the settings: the ticket that got us in is remembered at
/// `now`, and the nickname typed on the start screen is kept unless a flag chose it or it is
/// blank.
pub fn remember_open(settings: &mut Settings, ticket: &str, now: u64, nickname_from_flag: bool, typed_nickname: &str)
    ensures
        rooms_view(final(settings).recent_rooms@) == remembered(rooms_view(old(settings).recent_rooms@), ticket@, now),
        (nickname_from_flag || trimmed(typed_nickname@).len() == 0) ==> final(settings).nickname == old(settings).nickname,
        (!nickname_from_flag && trimmed(typed_nickname@).len() > 0) ==> (final(settings).nickname matches Some(n)
            && n@ == trimmed(typed_nickname@)),
        final(settings).fps == old(settings).fps,
        final(settings).relay == old(settings).relay,
        final(settings).audio == old(settings).audio,
{
    settings.remember_room(ticket, now);
    if !nickname_from_flag {
        match normalised_nickname(typed_nickname) {
            Some(nickname) => {
                settings.nickname = Some(nickname);
            },
            None => {},
        }
    }
}

} // verus!
