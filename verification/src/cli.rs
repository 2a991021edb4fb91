//! The command line: a headless publisher, or the participant window opened on a new room or on
//! a ticket. These are the parsed values; the parser itself lives with the program.
use vstd::prelude::*;

use crate::kinds::{Codec, SourceKind};

verus! {

/// Capture ceiling when no `--fps` is given, and the start screen's default.
pub const DEFAULT_FPS: u32 = 60;

/// Without a subcommand the participant window opens on its start screen.
#[derive(Debug)]
pub struct Cli {
    pub command: Option<Command>,
}

#[derive(Debug)]
pub enum Command {
    /// Share one live headlessly and print the ticket.
    Publish(PublishArgs),
    /// Open a new room in the participant window.
    Create(CreateArgs),
    /// Join a room with a ticket or link in the participant window.
    Join(JoinArgs),
}

#[derive(Debug)]
pub struct PublishArgs {
    pub fps: u32,
    pub bitrate_kbps: Option<u32>,
    pub codec: Option<CodecArg>,
    pub source: SourceArg,
    pub no_relay: bool,
    /// Join this room, given as a ticket or link, instead of creating a new one.
    pub ticket: Option<String>,
    /// Shown to other participants. Defaults to the short peer id.
    pub nickname: Option<String>,
}

impl PublishArgs {
    /// The arguments with every flag left out.
    pub fn defaults() -> (a: PublishArgs)
        ensures
            a.fps == DEFAULT_FPS,
            a.bitrate_kbps is None,
            a.codec is None,
            a.source == SourceArg::Monitor,
            !a.no_relay,
            a.ticket is None,
            a.nickname is None,
    {
        PublishArgs {
            fps: DEFAULT_FPS,
            bitrate_kbps: None,
            codec: None,
            source: SourceArg::Monitor,
            no_relay: false,
            ticket: None,
            nickname: None,
        }
    }
}

/// The flags the participant window takes, each overriding its saved setting for one launch.
#[derive(Debug, Clone)]
pub struct WindowArgs {
    /// Shown to other participants. Overrides the saved nickname for this launch.
    pub nickname: Option<String>,
    /// Capture ceiling for lives shared from the window; each live's presets can go lower.
    pub fps: Option<u32>,
    /// Disables relays for this launch whatever the saved relay setting is.
    pub no_relay: bool,
}

impl Default for WindowArgs {
    fn default() -> (a: WindowArgs)
        ensures
            a.nickname is None,
            a.fps is None,
            !a.no_relay,
    {
        WindowArgs { nickname: None, fps: None, no_relay: false }
    }
}

#[derive(Debug)]
pub struct CreateArgs {
    pub window: WindowArgs,
}

#[derive(Debug)]
pub struct JoinArgs {
    /// A ticket, a share link, or a brp:// link.
    pub ticket: String,
    pub window: WindowArgs,
}

#[derive(Debug, Clone, Copy, PartialEq, Eq, Structural)]
pub enum CodecArg {
    H264,
    Hevc,
    Av1,
}

/// The codec a `--codec` value names.
pub open spec fn codec_of(c: CodecArg) -> Codec {
    match c {
        CodecArg::H264 => Codec::H264,
        CodecArg::Hevc => Codec::Hevc,
        CodecArg::Av1 => Codec::Av1,
    }
}

impl From<CodecArg> for Codec {
    fn from(c: CodecArg) -> (r: Codec) {
        match c {
            CodecArg::H264 => Codec::H264,
            CodecArg::Hevc => Codec::Hevc,
            CodecArg::Av1 => Codec::Av1,
        }
    }
}

impl vstd::std_specs::convert::FromSpecImpl<CodecArg> for Codec {
    open spec fn obeys_from_spec() -> bool {
        true
    }

    open spec fn from_spec(c: CodecArg) -> Codec {
        codec_of(c)
    }
}

#[derive(Debug, Clone, Copy, PartialEq, Eq, Structural)]
pub enum SourceArg {
    Monitor,
    Window,
}

/// The source kind a `--source` value names.
pub open spec fn kind_of(s: SourceArg) -> SourceKind {
    match s {
        SourceArg::Monitor => SourceKind::Monitor,
        SourceArg::Window => SourceKind::Window,
    }
}

impl From<SourceArg> for SourceKind {
    fn from(s: SourceArg) -> (r: SourceKind) {
        match s {
            SourceArg::Monitor => SourceKind::Monitor,
            SourceArg::Window => SourceKind::Window,
        }
    }
}

impl vstd::std_specs::convert::FromSpecImpl<SourceArg> for SourceKind {
    open spec fn obeys_from_spec() -> bool {
        true
    }

    open spec fn from_spec(s: SourceArg) -> SourceKind {
        kind_of(s)
    }
}

} // verus!
