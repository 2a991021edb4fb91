//! What the room's panels decide for each live row: the labels they show, the encoder status of
//! a preset, when an edited field commits, and which watch commands a row sends.
use vstd::prelude::*;

use crate::kinds::Codec;
use crate::presets::{LiveInfo, Preset};
use crate::text::{decimal, push_char, push_decimal};

verus! {

/// `text` followed by spaces up to `width` characters; longer text is kept whole.
pub open spec fn padded(text: Seq<char>, width: nat) -> Seq<char> {
    if text.len() >= width {
        text
    } else {
        text + Seq::new((width - text.len()) as nat, |i: int| ' ')
    }
}

/// A size as the panels write it: width, `x`, height.
pub open spec fn size_text(width: u32, height: u32) -> Seq<char> {
    decimal(width as nat) + "x"@ + decimal(height as nat)
}

/// Appends `width`x`height` to `s`.
fn push_size(s: &mut String, width: u32, height: u32)
    ensures
        final(s)@ == old(s)@ + size_text(width, height),
{
    push_decimal(s, width as u64);
    s.append("x");
    push_decimal(s, height as u64);
    assert(final(s)@ =~= old(s)@ + size_text(width, height));
}

/// The members panel's label for a remote live: its title and its source size.
pub fn live_label(title: &str, width: u32, height: u32) -> (r: String)
    ensures
        r@ == title@ + " "@ + size_text(width, height),
{
    let mut r = String::new();
    r.append(title);
    r.append(" ");
    push_size(&mut r, width, height);
    assert(r@ =~= title@ + " "@ + size_text(width, height));
    r
}

/// A preset as the preset selectors list it: its name and its size.
pub fn preset_choice_label(preset: &Preset) -> (r: String)
    ensures
        r@ == preset.name@ + " "@ + size_text(preset.width, preset.height),
{
    live_label(preset.name.as_str(), preset.width, preset.height)
}

/// The column of the own-lives panel a preset's name is padded to.
pub const PRESET_NAME_COLUMN: usize = 7;

/// A preset row of the own-lives panel: its name padded to a column, then its size.
pub fn preset_row_label(preset: &Preset) -> (r: String)
    ensures
        r@ == padded(preset.name@, PRESET_NAME_COLUMN as nat) + " "@ + size_text(preset.width, preset.height),
{
    let mut r = String::new();
    r.append(preset.name.as_str());
    let ghost name = preset.name@;
    let mut n: usize = preset.name.as_str().unicode_len();
    while n < PRESET_NAME_COLUMN
        invariant
            name.len() <= n,
            n <= PRESET_NAME_COLUMN || n == name.len(),
            r@ == name + Seq::new((n - name.len()) as nat, |i: int| ' '),
        decreases PRESET_NAME_COLUMN - n,
    {
        push_char(&mut r, ' ');
        n = n + 1;
        assert(r@ =~= name + Seq::new((n - name.len()) as nat, |i: int| ' '));
    }
    proof {
        if name.len() >= PRESET_NAME_COLUMN {
            assert(r@ =~= name);
        } else {
            assert(n == PRESET_NAME_COLUMN);
        }
    }
    r.append(" ");
    push_size(&mut r, preset.width, preset.height);
    assert(r@ =~= padded(name, PRESET_NAME_COLUMN as nat) + " "@ + size_text(preset.width, preset.height));
    r
}

/// The own-lives panel's line for a live's source: its size and its rate.
pub fn source_line(info: &LiveInfo) -> (r: String)
    ensures
        r@ == size_text(info.source_width, info.source_height) + " @ "@ + decimal(info.source_fps as nat) + " fps"@,
{
    let mut r = String::new();
    push_size(&mut r, info.source_width, info.source_height);
    r.append(" @ ");
    push_decimal(&mut r, info.source_fps as u64);
    r.append(" fps");
    assert(r@ =~= size_text(info.source_width, info.source_height) + " @ "@ + decimal(info.source_fps as nat)
        + " fps"@);
    r
}

/// The rate a live is shared at: its first preset's, or the source's while it has none.
pub open spec fn live_fps(info: LiveInfo) -> u32 {
    if info.presets@.len() > 0 {
        info.presets@[0].fps
    } else {
        info.source_fps
    }
}

/// The codec a live is shared in: its first preset's, or H.264 while it has none.
pub open spec fn live_codec(info: LiveInfo) -> Codec {
    if info.presets@.len() > 0 {
        info.presets@[0].codec
    } else {
        Codec::H264
    }
}

/// The rate the own-lives panel shows for `info`.
pub fn current_fps(info: &LiveInfo) -> (fps: u32)
    ensures
        fps == live_fps(*info),
{
    if info.presets.len() > 0 {
        info.presets[0].fps
    } else {
        info.source_fps
    }
}

/// The codec the own-lives panel shows for `info`.
pub fn current_codec(info: &LiveInfo) -> (codec: Codec)
    ensures
        codec == live_codec(*info),
{
    if info.presets.len() > 0 {
        info.presets[0].codec
    } else {
        Codec::H264
    }
}

/// Whether the share buttons are enabled: no share is waiting for its picker and the participant
/// shares fewer lives than allowed.
pub fn can_share(share_pending: bool, own_lives: usize, max_lives: usize) -> (b: bool)
    ensures
        b == (!share_pending && own_lives < max_lives),
{
    !share_pending && own_lives < max_lives
}

/// What a dragged number field does in one pass.
#[derive(Debug, Clone, Copy, PartialEq, Eq, Structural)]
pub enum EditOutcome {
    /// Still dragged or focused: the edit is kept and nothing is sent.
    Keep,
    /// Released at the value in force: the edit is dropped.
    Drop,
    /// Released at another value: the edit is dropped and the value is committed.
    Commit(u32),
}

/// A field edited to `value` over a setting now at `current`. Commits wait for the release,
/// because each commit restarts the encoders.
pub fn settle_edit(value: u32, current: u32, active: bool) -> (r: EditOutcome)
    ensures
        active ==> r == EditOutcome::Keep,
        !active && value == current ==> r == EditOutcome::Drop,
        !active && value != current ==> r == EditOutcome::Commit(value),
{
    if active {
        EditOutcome::Keep
    } else if value == current {
        EditOutcome::Drop
    } else {
        EditOutcome::Commit(value)
    }
}

/// A change to one remote live's watch.
#[derive(Debug, Clone, Copy, PartialEq, Eq, Structural)]
pub enum WatchChange {
    /// Watch it at this preset.
    Watch(u32),
    /// Stop watching it.
    Unwatch,
}

/// The changes a live's row sends when its checkbox went from `was_watched` to `watched` and its
/// selector from `offered` to `chosen`: the toggle first, then a watched live re-watched at a new
/// preset.
pub open spec fn row_change_list(was_watched: bool, watched: bool, offered: u32, chosen: u32) -> Seq<WatchChange> {
    let toggle = if was_watched == watched {
        Seq::<WatchChange>::empty()
    } else if watched {
        seq![WatchChange::Watch(offered)]
    } else {
        seq![WatchChange::Unwatch]
    };
    if chosen != offered && watched {
        toggle.push(WatchChange::Watch(chosen))
    } else {
        toggle
    }
}

/// The changes one live's row sends in a pass.
pub fn row_changes(was_watched: bool, watched: bool, offered: u32, chosen: u32) -> (changes: Vec<WatchChange>)
    ensures
        changes@ == row_change_list(was_watched, watched, offered, chosen),
{
    let mut changes: Vec<WatchChange> = Vec::new();
    if was_watched != watched {
        if watched {
            changes.push(WatchChange::Watch(offered));
        } else {
            changes.push(WatchChange::Unwatch);
        }
    }
    if chosen != offered && watched {
        changes.push(WatchChange::Watch(chosen));
    }
    assert(changes@ =~= row_change_list(was_watched, watched, offered, chosen));
    changes
}

/// A running encoder as a preset row reports it.
#[derive(Debug, Clone, PartialEq, Eq)]
pub struct EncoderSummary {
    pub name: String,
    pub subscribers: u64,
    pub frames_encoded: u64,
}

/// How a preset row's status is shown.
#[derive(Debug, Clone, Copy, PartialEq, Eq, Structural)]
pub enum StatusTone {
    Normal,
    Failed,
    Idle,
}

/// The status text of a preset whose encoder runs: its name, the measured rate, its viewers
/// (singular for one), and the frames it encoded.
pub open spec fn encoder_text(e: EncoderSummary, measured_kbps: u64) -> Seq<char> {
    e.name@ + " · "@ + decimal(measured_kbps as nat) + " kbps · "@ + decimal(e.subscribers as nat) + (if e.subscribers
        == 1 {
        " viewer"@
    } else {
        " viewers"@
    }) + " · "@ + decimal(e.frames_encoded as nat) + " frames"@
}

/// The status a preset row shows: the running encoder, else the last failure, else idle.
pub open spec fn preset_status_of(encoder: Option<EncoderSummary>, measured_kbps: u64, last_error: Option<Seq<char>>) -> (
    StatusTone,
    Seq<char>,
) {
    match encoder {
        Some(e) => (StatusTone::Normal, encoder_text(e, measured_kbps)),
        None => match last_error {
            Some(error) => (StatusTone::Failed, "failed: "@ + error),
            None => (StatusTone::Idle, "idle"@),
        },
    }
}

/// The optional text of an optional string slice.
pub open spec fn opt_str(s: Option<&str>) -> Option<Seq<char>> {
    match s {
        Some(t) => Some(t@),
        None => None,
    }
}

/// A preset row's status and how to show it.
pub fn preset_status(encoder: Option<&EncoderSummary>, measured_kbps: u64, last_error: Option<&str>) -> (r: (
    StatusTone,
    String,
))
    ensures
        (r.0, r.1@) == preset_status_of(
            match encoder {
                Some(e) => Some(*e),
                None => None,
            },
            measured_kbps,
            opt_str(last_error),
        ),
{
    match encoder {
        Some(e) => {
            let mut r = String::new();
            r.append(e.name.as_str());
            r.append(" · ");
            push_decimal(&mut r, measured_kbps);
            r.append(" kbps · ");
            push_decimal(&mut r, e.subscribers);
            if e.subscribers == 1 {
                r.append(" viewer");
            } else {
                r.append(" viewers");
            }
            r.append(" · ");
            push_decimal(&mut r, e.frames_encoded);
            r.append(" frames");
            assert(r@ =~= encoder_text(*e, measured_kbps));
            (StatusTone::Normal, r)
        },
        None => match last_error {
            Some(error) => {
                let mut r = String::new();
                r.append("failed: ");
                r.append(error);
                (StatusTone::Failed, r)
            },
            None => {
                let mut r = String::new();
                r.append("idle");
                (StatusTone::Idle, r)
            },
        },
    }
}

} // verus!
