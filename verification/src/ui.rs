//! The window chrome's decisions: the fullscreen keys of a pop-out, the settings dialog's relay
//! radio and device label, the update notice's progress, and the mute toggle.
use vstd::prelude::*;

use crate::output::OutputDevice;
use crate::settings::{RelayChoice, Settings};
use crate::text::{concat, decimal, decimal_string, str_eq};

verus! {

/// F11 always toggles; Esc only leaves fullscreen, so it cannot enter it by accident. Esc is
/// ignored while a popup is open because the same press is dismissing the popup.
pub fn fullscreen_toggle_requested(f11: bool, escape: bool, fullscreen: bool, popup_open: bool) -> (b: bool)
    ensures
        b == (f11 || (escape && fullscreen && !popup_open)),
{
    f11 || (escape && fullscreen && !popup_open)
}

/// The three relay radio buttons.
#[derive(Debug, Clone, Copy, PartialEq, Eq, Structural)]
pub enum RelayKind {
    Default,
    Custom,
    Disabled,
}

impl RelayKind {
    /// The button a choice shows as selected.
    pub fn of(choice: &RelayChoice) -> (k: RelayKind)
        ensures
            choice is Default ==> k == RelayKind::Default,
            choice is Custom ==> k == RelayKind::Custom,
            choice is Disabled ==> k == RelayKind::Disabled,
    {
        match choice {
            RelayChoice::Default => RelayKind::Default,
            RelayChoice::Custom(_) => RelayKind::Custom,
            RelayChoice::Disabled => RelayKind::Disabled,
        }
    }
}

/// The choice after a radio click. Switching to custom keeps a URL that was already typed and
/// starts empty otherwise; switching away keeps nothing, since the draft is discarded on Cancel.
pub fn switch_relay(current: &RelayChoice, kind: RelayKind) -> (c: RelayChoice)
    ensures
        kind == RelayKind::Default ==> c is Default,
        kind == RelayKind::Disabled ==> c is Disabled,
        kind == RelayKind::Custom ==> c is Custom && (match current {
            RelayChoice::Custom(url) => c->Custom_0@ == url@,
            _ => c->Custom_0@ == Seq::<char>::empty(),
        }),
{
    match kind {
        RelayKind::Custom => match current {
            RelayChoice::Custom(url) => RelayChoice::Custom(url.clone()),
            _ => RelayChoice::Custom(String::new()),
        },
        RelayKind::Default => RelayChoice::Default,
        RelayKind::Disabled => RelayChoice::Disabled,
    }
}

/// What the combo box shows for the draft's device: its name when listed, the id with a note
/// when it is saved but absent, or the default.
pub fn device_label(selected: Option<&str>, devices: &[OutputDevice]) -> (label: String)
    ensures
        selected is None ==> label@ == "System default"@,
        selected matches Some(id) ==> (
            (exists|i: int| 0 <= i < devices@.len() && (#[trigger] devices@[i]).id@ == id@) ==> exists|i: int|
                0 <= i < devices@.len() && (#[trigger] devices@[i]).id@ == id@ && label@ == devices@[i].name@
                && forall|j: int| 0 <= j < i ==> devices@[j].id@ != id@),
        selected matches Some(id) ==> (
            !(exists|i: int| 0 <= i < devices@.len() && (#[trigger] devices@[i]).id@ == id@) ==> label@ == id@
                + " (not present)"@),
{
    match selected {
        None => "System default".to_owned(),
        Some(id) => {
            let mut i: usize = 0;
            while i < devices.len()
                invariant
                    i <= devices@.len(),
                    selected == Some(id),
                    forall|j: int| 0 <= j < i ==> devices@[j].id@ != id@,
                decreases devices@.len() - i,
            {
                if str_eq(devices[i].id.as_str(), id) {
                    return devices[i].name.clone();
                }
                i = i + 1;
            }
            concat(id, " (not present)")
        },
    }
}

/// Dialog state: whether it is open, the draft being edited, the devices listed when it opened,
/// and the last validation or save error.
#[derive(Debug, Clone)]
pub struct SettingsDialog {
    pub open: bool,
    pub draft: Settings,
    /// The nickname field's raw text, kept apart from the draft so the field holds whatever the
    /// user is typing, spaces included.
    pub nickname_text: String,
    pub devices: Vec<OutputDevice>,
    pub devices_error: Option<String>,
    pub error: String,
}

impl Default for SettingsDialog {
    fn default() -> (d: SettingsDialog)
        ensures
            !d.open,
            d.draft.fps == crate::settings::DEFAULT_FPS,
            d.draft.nickname is None,
            d.draft.relay is Default,
            d.draft.recent_rooms@.len() == 0,
            d.nickname_text@ == Seq::<char>::empty(),
            d.devices@.len() == 0,
            d.devices_error is None,
            d.error@ == Seq::<char>::empty(),
    {
        SettingsDialog {
            open: false,
            draft: Settings::default(),
            nickname_text: String::new(),
            devices: Vec::new(),
            devices_error: None,
            error: String::new(),
        }
    }
}

impl SettingsDialog {
    /// Opens with a fresh draft of `settings` and the device list as enumerated now.
    pub fn open_with(&mut self, settings: &Settings, devices: Result<Vec<OutputDevice>, String>)
        ensures
            final(self).open,
            final(self).draft.same_as(settings),
            final(self).nickname_text@ == match settings.nickname {
                Some(n) => n@,
                None => Seq::<char>::empty(),
            },
            final(self).error@ == Seq::<char>::empty(),
            devices matches Ok(d) ==> final(self).devices == d && final(self).devices_error is None,
            devices matches Err(e) ==> final(self).devices@.len() == 0 && final(self).devices_error
                == Some(e),
    {
        self.draft = settings.copy();
        self.nickname_text = match &settings.nickname {
            Some(n) => n.clone(),
            None => String::new(),
        };
        match devices {
            Ok(devices) => {
                self.devices = devices;
                self.devices_error = None;
            },
            Err(error) => {
                self.devices = Vec::new();
                self.devices_error = Some(error);
            },
        }
        self.error = String::new();
        self.open = true;
    }
}

/// Decimal megabytes, the unit the progress line shows.
pub const BYTES_PER_MB: u64 = 1_000_000;

/// The progress line in whole decimal megabytes, with the total when the server stated one.
pub open spec fn progress_line(received: u64, total: Option<u64>) -> Seq<char> {
    match total {
        Some(t) => "downloading "@ + decimal((received / BYTES_PER_MB) as nat) + " MB / "@ + decimal(
            (t / BYTES_PER_MB) as nat,
        ) + " MB"@,
        None => "downloading "@ + decimal((received / BYTES_PER_MB) as nat) + " MB"@,
    }
}

/// The progress line in whole decimal megabytes, rounded down.
pub fn progress_text(received: u64, total: Option<u64>) -> (text: String)
    ensures
        text@ == progress_line(received, total),
{
    let got = decimal_string(received / BYTES_PER_MB);
    let head = concat("downloading ", got.as_str());
    match total {
        Some(t) => {
            let all = decimal_string(t / BYTES_PER_MB);
            let a = concat(head.as_str(), " MB / ");
            let b = concat(a.as_str(), all.as_str());
            concat(b.as_str(), " MB")
        },
        None => concat(head.as_str(), " MB"),
    }
}

} // verus!
