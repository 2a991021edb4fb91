//! The update notice and button: which release the launch check found, whether this install can
//! be replaced, and how far a download has got. Kept apart from the window state a room opening
//! resets, because a download in flight must survive that.
use vstd::prelude::*;

use crate::text::{concat, decimal, decimal_string, owned};

verus! {

/// A release version, major, minor, patch.
#[derive(Debug, Clone, Copy, PartialEq, Eq, Structural)]
pub struct Version(pub u32, pub u32, pub u32);

/// A published release: its version and its tag.
#[derive(Debug, Clone, PartialEq, Eq)]
pub struct Release {
    pub version: Version,
    pub tag: String,
}

impl Release {
    /// The same release.
    pub fn copy(&self) -> (r: Release)
        ensures
            r.version == self.version,
            r.tag@ == self.tag@,
    {
        Release { version: self.version, tag: owned(self.tag.as_str()) }
    }
}

/// Where a download stands: not started, in flight with a byte count, or failed with the message
/// to show.
#[derive(Debug, Clone, PartialEq, Eq)]
pub enum UpdatePhase {
    Idle,
    Downloading { received: u64, total: Option<u64> },
    Failed(String),
}

/// What the window knows about updates.
#[derive(Debug, Clone, PartialEq, Eq)]
pub struct UpdateState {
    pub available: Option<Release>,
    /// The install is a release layout, so the button is offered; a dev build only gets the
    /// notice.
    pub can_apply: bool,
    pub phase: UpdatePhase,
}

impl UpdateState {
    /// Nothing found yet, nothing in flight.
    pub fn new(can_apply: bool) -> (s: UpdateState)
        ensures
            s.available is None,
            s.can_apply == can_apply,
            s.phase is Idle,
    {
        UpdateState { available: None, can_apply, phase: UpdatePhase::Idle }
    }

    /// The button was clicked: the release to download, or `None` while one is already in flight
    /// or nothing can be applied.
    pub fn start(&mut self) -> (r: Option<Release>)
        ensures
            final(self).available == old(self).available,
            final(self).can_apply == old(self).can_apply,
            (old(self).can_apply && !(old(self).phase is Downloading) && old(self).available is Some) ==> {
                &&& r matches Some(rel) && rel.version == old(self).available->0.version
                    && rel.tag@ == old(self).available->0.tag@
                &&& final(self).phase == (UpdatePhase::Downloading { received: 0, total: None })
            },
            !(old(self).can_apply && !(old(self).phase is Downloading) && old(self).available is Some) ==> {
                &&& r is None
                &&& final(self).phase == old(self).phase
            },
    {
        let downloading = match self.phase {
            UpdatePhase::Downloading { .. } => true,
            _ => false,
        };
        if !self.can_apply || downloading {
            return None;
        }
        let release = match &self.available {
            Some(release) => release.copy(),
            None => {
                return None;
            },
        };
        self.phase = UpdatePhase::Downloading { received: 0, total: None };
        Some(release)
    }

    /// Records bytes received; ignored unless a download is in flight.
    pub fn progress(&mut self, received: u64, total: Option<u64>)
        ensures
            final(self).available == old(self).available,
            final(self).can_apply == old(self).can_apply,
            old(self).phase is Downloading ==> final(self).phase == (UpdatePhase::Downloading { received, total }),
            !(old(self).phase is Downloading) ==> final(self).phase == old(self).phase,
    {
        let downloading = match self.phase {
            UpdatePhase::Downloading { .. } => true,
            _ => false,
        };
        if downloading {
            self.phase = UpdatePhase::Downloading { received, total };
        }
    }

    /// The download or swap failed; the button returns so the user can retry.
    pub fn failed(&mut self, message: String)
        ensures
            final(self).available == old(self).available,
            final(self).can_apply == old(self).can_apply,
            final(self).phase == UpdatePhase::Failed(message),
    {
        self.phase = UpdatePhase::Failed(message);
    }
}

/// A version as `major.minor.patch`.
pub open spec fn version_text(v: Version) -> Seq<char> {
    decimal(v.0 as nat) + "."@ + decimal(v.1 as nat) + "."@ + decimal(v.2 as nat)
}

/// The notice text for `release`: its version, plus the releases page `releases_url` when this
/// install cannot be replaced.
pub open spec fn notice_text(v: Version, can_apply: bool, releases_url: Seq<char>) -> Seq<char> {
    if can_apply {
        "v"@ + version_text(v) + " is available"@
    } else {
        "v"@ + version_text(v) + " is available at "@ + releases_url
    }
}

/// The notice shown beside the button, naming the version and, when nothing can be applied, the
/// page the release is on.
pub fn notice(release: &Release, can_apply: bool, releases_url: &str) -> (text: String)
    ensures
        text@ == notice_text(release.version, can_apply, releases_url@),
{
    let major = decimal_string(release.version.0 as u64);
    let minor = decimal_string(release.version.1 as u64);
    let patch = decimal_string(release.version.2 as u64);
    let a = concat("v", major.as_str());
    let b = concat(a.as_str(), ".");
    let c = concat(b.as_str(), minor.as_str());
    let d = concat(c.as_str(), ".");
    let e = concat(d.as_str(), patch.as_str());
    let text = if can_apply {
        concat(e.as_str(), " is available")
    } else {
        let f = concat(e.as_str(), " is available at ");
        concat(f.as_str(), releases_url)
    };
    proof {
        reveal_strlit("v");
        reveal_strlit(".");
        assert(text@ =~= notice_text(release.version, can_apply, releases_url@));
    }
    text
}

} // verus!
