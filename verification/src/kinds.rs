//! The small vocabularies the rest of the library shares: what a live captures and how it is
//! encoded.
use vstd::prelude::*;

verus! {

/// What a live captures: a whole monitor or one window.
#[derive(Debug, Clone, Copy, PartialEq, Eq, Structural)]
pub enum SourceKind {
    Monitor,
    Window,
}

/// The video codecs a preset can use.
#[derive(Debug, Clone, Copy, PartialEq, Eq, Structural)]
pub enum Codec {
    H264,
    Hevc,
    Av1,
}

/// Identifies one capturable source within a listing.
#[derive(Debug, Clone, Copy, PartialEq, Eq, Structural)]
pub struct SourceId(pub u64);

/// How a member's connection reaches us.
#[derive(Debug, Clone, Copy, PartialEq, Eq, Structural)]
pub enum PathKind {
    Direct,
    Relayed,
    Unknown,
}

/// The name a codec is shown under.
pub fn codec_name(codec: Codec) -> (name: &'static str)
    ensures
        name@ == match codec {
            Codec::H264 => "H.264"@,
            Codec::Hevc => "HEVC"@,
            Codec::Av1 => "AV1"@,
        },
{
    match codec {
        Codec::H264 => "H.264",
        Codec::Hevc => "HEVC",
        Codec::Av1 => "AV1",
    }
}

/// Human-readable label for a member's connection path.
pub fn path_badge(path: PathKind) -> (badge: &'static str)
    ensures
        badge@ == match path {
            PathKind::Direct => "direct"@,
            PathKind::Relayed => "relayed"@,
            PathKind::Unknown => "path unknown"@,
        },
{
    match path {
        PathKind::Direct => "direct",
        PathKind::Relayed => "relayed",
        PathKind::Unknown => "path unknown",
    }
}

} // verus!
