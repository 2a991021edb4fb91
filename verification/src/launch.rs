//! What applies to any room this window opens: the saved settings, with each command line flag
//! that is present replacing its field for this launch only.
use vstd::prelude::*;

use crate::cli::WindowArgs;
use crate::selection::{AudioSelection, Platform};
use crate::settings::{copy_opt_string, name_keys_on, AudioMode, RelayChoice, RelaySetting, Settings};

verus! {

/// The text of an optional string.
pub open spec fn opt_view(o: Option<String>) -> Option<Seq<char>> {
    match o {
        Some(s) => Some(s@),
        None => None,
    }
}

/// Settings that apply to any room this window opens.
#[derive(Debug)]
pub struct Launch {
    pub nickname: Option<String>,
    /// True when `--nickname` was given: the start screen's nickname is then not saved.
    pub nickname_from_flag: bool,
    pub fps: u32,
    pub relay: RelaySetting,
    /// Output device id to play through; `None` is the system default.
    pub audio_output: Option<String>,
    /// Which applications the room's audio carries.
    pub audio_applications: AudioSelection,
}

impl Launch {
    /// The saved settings with the flags of `args` laid over them. A custom relay URL that does
    /// not parse is an error, unless `--no-relay` makes it irrelevant.
    /// The application names are read under the POSIX rule; see [`Launch::from_settings_on`].
    pub fn from_settings(settings: &Settings, args: &WindowArgs) -> (r: Result<Launch, String>)
        ensures
            r is Ok == (args.no_relay || settings.relay.usable()),
            r matches Err(m) ==> m@ == settings.relay.refusal(),
            r matches Err(m) ==> m@.len() >= 10 && m@.take(10) == "relay URL "@,
            r matches Ok(l) ==> l.takes_from(*settings, *args, Platform::Posix),
    {
        Launch::from_settings_on(settings, args, Platform::Posix)
    }

    /// What a launch on `platform` takes from the settings and the flags.
    pub open spec fn takes_from(&self, settings: Settings, args: WindowArgs, platform: Platform) -> bool {
        let l = *self;
        &&& opt_view(l.nickname) == (if args.nickname is Some {
            opt_view(args.nickname)
        } else {
            opt_view(settings.nickname)
        })
        &&& l.nickname_from_flag == args.nickname is Some
        &&& l.fps == (match args.fps {
            Some(f) => f,
            None => settings.fps,
        })
        &&& args.no_relay ==> l.relay is Disabled
        &&& !args.no_relay ==> l.relay.given_by(settings.relay)
        &&& opt_view(l.audio_output) == opt_view(settings.audio.output_device)
        &&& l.audio_applications.wf()
        &&& settings.audio.applications.mode == AudioMode::All ==> l.audio_applications is All
        &&& settings.audio.applications.mode == AudioMode::Only ==> l.audio_applications is Only
            && l.audio_applications->Only_0.members() == name_keys_on(settings.audio.applications.names@, platform)
    }

    /// The saved settings with the flags of `args` laid over them, the application names read
    /// under the rule of `platform`. A custom relay URL that does not parse is an error, unless
    /// `--no-relay` makes it irrelevant.
    pub fn from_settings_on(settings: &Settings, args: &WindowArgs, platform: Platform) -> (r: Result<Launch, String>)
        ensures
            r is Ok == (args.no_relay || settings.relay.usable()),
            r matches Err(m) ==> m@ == settings.relay.refusal(),
            r matches Err(m) ==> m@.len() >= 10 && m@.take(10) == "relay URL "@,
            r matches Ok(l) ==> l.takes_from(*settings, *args, platform),
    {
        let relay = if args.no_relay {
            RelaySetting::Disabled
        } else {
            match settings.relay.to_relay_setting() {
                Ok(relay) => relay,
                Err(message) => {
                    return Err(message);
                },
            }
        };
        let nickname = match &args.nickname {
            Some(n) => copy_opt_string(&Some(n.clone())),
            None => copy_opt_string(&settings.nickname),
        };
        proof {
            if args.nickname is Some {
                assert(opt_view(nickname) == opt_view(args.nickname));
            }
        }
        let fps = match args.fps {
            Some(f) => f,
            None => settings.fps,
        };
        Ok(Launch {
            nickname,
            nickname_from_flag: args.nickname.is_some(),
            fps,
            relay,
            audio_output: copy_opt_string(&settings.audio.output_device),
            audio_applications: settings.audio.applications.to_selection_on(platform),
        })
    }
}

} // verus!
