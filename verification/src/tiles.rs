//! How a watched live is named across the window: by its publisher's key and its live id.
use vstd::prelude::*;

use crate::text::{concat, decimal, push_decimal};

verus! {

broadcast use vstd::array::group_array_axioms;

/// One watched live: the publisher's 32-byte public key and the live's id.
#[derive(Debug, Clone, Copy)]
pub struct TileKey {
    pub publisher: [u8; 32],
    pub live_id: u32,
}

impl TileKey {
    /// Whether two keys name the same live.
    pub fn same(&self, other: &TileKey) -> (b: bool)
        ensures
            b == (*self == *other),
    {
        if self.live_id != other.live_id {
            return false;
        }
        let mut i: usize = 0;
        while i < 32
            invariant
                i <= 32,
                forall|j: int| 0 <= j < i ==> self.publisher@[j] == other.publisher@[j],
            decreases 32 - i,
        {
            if self.publisher[i] != other.publisher[i] {
                assert(self.publisher@[i as int] != other.publisher@[i as int]);
                return false;
            }
            i = i + 1;
        }
        assert(self.publisher@ =~= other.publisher@);
        assert(self.publisher == other.publisher);
        true
    }
}

/// Where an overlay is drawn, which decides its window buttons.
#[derive(Debug, Clone, Copy, PartialEq, Eq, Structural)]
pub enum Placement {
    /// A cell of the main window's grid: offers pop out and fullscreen.
    Grid,
    /// A pop-out window: offers the fullscreen toggle and a return to the grid.
    PopOut { fullscreen: bool },
}

/// What a window button over a tile asks of the window.
#[derive(Debug, Clone, Copy, PartialEq, Eq, Structural)]
pub enum WindowAction {
    /// Open the live in a window of its own.
    PopOut,
    /// Open the live in a window of its own, fullscreen.
    PopOutFullscreen,
    /// Toggle the pop-out window between fullscreen and windowed.
    ToggleFullscreen,
    /// Close the pop-out window; the live returns to the grid.
    ReturnToGrid,
}

/// The two window buttons an overlay in `placement` shows, in order: label and action.
pub open spec fn buttons_of(placement: Placement) -> ((Seq<char>, WindowAction), (Seq<char>, WindowAction)) {
    match placement {
        Placement::Grid => (("pop out"@, WindowAction::PopOut), ("fullscreen"@, WindowAction::PopOutFullscreen)),
        Placement::PopOut { fullscreen } => (
            (if fullscreen { "windowed"@ } else { "fullscreen"@ }, WindowAction::ToggleFullscreen),
            ("back to grid"@, WindowAction::ReturnToGrid),
        ),
    }
}

impl Placement {
    /// The overlay's two window buttons: in the grid, pop out and fullscreen; in a pop-out, the
    /// fullscreen toggle (labelled by what it switches to) and the return to the grid.
    pub fn window_buttons(&self) -> (b: ((&'static str, WindowAction), (&'static str, WindowAction)))
        ensures
            (b.0.0@, b.0.1) == buttons_of(*self).0,
            (b.1.0@, b.1.1) == buttons_of(*self).1,
    {
        match self {
            Placement::Grid => (("pop out", WindowAction::PopOut), ("fullscreen", WindowAction::PopOutFullscreen)),
            Placement::PopOut { fullscreen } => {
                let label = if *fullscreen { "windowed" } else { "fullscreen" };
                ((label, WindowAction::ToggleFullscreen), ("back to grid", WindowAction::ReturnToGrid))
            },
        }
    }
}

/// Where a watch stands, as its tile reports it.
#[derive(Debug, Clone, Copy, PartialEq, Eq, Structural)]
pub enum WatchPhase {
    Connecting,
    Reconnecting,
    Ended,
    Live,
}

/// The word a tile shows for `phase`; a live watch shows none.
pub open spec fn phase_word(phase: WatchPhase) -> Option<Seq<char>> {
    match phase {
        WatchPhase::Connecting => Some("connecting"@),
        WatchPhase::Reconnecting => Some("reconnecting"@),
        WatchPhase::Ended => Some("ended"@),
        WatchPhase::Live => None,
    }
}

/// The status a tile titled `title` shows over its video: the title and the phase's word, or
/// nothing while the watch is live.
pub fn status_line(title: &str, phase: WatchPhase) -> (r: Option<String>)
    ensures
        r is None <==> phase_word(phase) is None,
        r matches Some(text) ==> text@ == title@ + ": "@ + phase_word(phase)->0,
{
    let word = match phase {
        WatchPhase::Connecting => "connecting",
        WatchPhase::Reconnecting => "reconnecting",
        WatchPhase::Ended => "ended",
        WatchPhase::Live => {
            return None;
        },
    };
    let head = concat(title, ": ");
    Some(concat(head.as_str(), word))
}

/// The statistics line a tile shows when its stats are toggled on.
pub open spec fn stats_text(decoded: u64, keyframe_requests: u64, preset: Seq<char>) -> Seq<char> {
    "decoded "@ + decimal(decoded as nat) + "  keyframe requests "@ + decimal(keyframe_requests as nat) + "  preset "@
        + preset
}

/// The statistics line: frames decoded, keyframes requested, and the watched preset's name.
pub fn stats_line(decoded: u64, keyframe_requests: u64, preset: &str) -> (r: String)
    ensures
        r@ == stats_text(decoded, keyframe_requests, preset@),
{
    let mut r = String::new();
    r.append("decoded ");
    push_decimal(&mut r, decoded);
    r.append("  keyframe requests ");
    push_decimal(&mut r, keyframe_requests);
    r.append("  preset ");
    r.append(preset);
    assert(r@ =~= stats_text(decoded, keyframe_requests, preset@));
    r
}

} // verus!
