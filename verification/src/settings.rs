//! What persists across launches besides the identity key: the settings the file holds, the rules
//! they are checked against, and the store that decides when they may be written.
use vstd::prelude::*;

use crate::selection::{normalised, AppKey, AudioSelection, KeySet, Platform};
use crate::text::{concat, lemma_trimmed_is_stable, trim, trimmed};
pub use crate::cli::DEFAULT_FPS;

verus! {

/// Beside the identity key in the platform config directory.
pub const SETTINGS_FILE: &'static str = "settings.toml";

/// Enough to cover a week of rooms for a small group without scrolling the start screen.
pub const RECENT_ROOMS_MAX: usize = 8;

/// A relay server address: `iroh_base::RelayUrl`, declared so it can be carried; nothing inside
/// it is read.
#[verifier::external_type_specification]
#[verifier::external_body]
pub struct ExRelayUrl(iroh_base::RelayUrl);

/// What `RelayUrl::from_str` makes of `text`: the text of the URL it parses to (`Url::as_str`,
/// the form the `url` crate writes it back in), or the text of its parse error.
pub uninterp spec fn relay_url_parse(text: Seq<char>) -> Result<Seq<char>, Seq<char>>;

/// `RelayUrl::from_str`, with the parsed URL handed back beside its own text (`as_str`): claimed
/// to give the named outcome for the text, the URL's text or the parse error's text. How the
/// `url` crate normalises a URL, and the error's wording, are not restated.
#[verifier::external_body]
fn parse_relay_url(text: &str) -> (r: Result<(iroh_base::RelayUrl, String), String>)
    ensures
        r matches Ok(p) ==> relay_url_parse(text@) matches Ok(u) && u == p.1@,
        r matches Err(e) ==> relay_url_parse(text@) matches Err(d) && d == e@,
{
    match text.parse::<iroh_base::RelayUrl>() {
        Ok(url) => {
            let shown = url.as_str().to_string();
            Ok((url, shown))
        },
        Err(e) => Err(e.to_string()),
    }
}

/// What `<str as Debug>::fmt` writes for a text: the text in double quotes with its special
/// characters escaped.
pub uninterp spec fn debug_text(text: Seq<char>) -> Seq<char>;

/// `<str as Debug>::fmt`: claimed to give the named quoted form of the text; the escaping rules
/// are not restated.
#[verifier::external_body]
fn debug_quoted(text: &str) -> (r: String)
    ensures
        r@ == debug_text(text@),
{
    format!("{text:?}")
}

/// The refusal a custom relay URL that does not parse is shown with: the words `relay URL `, the
/// quoted text, and the parser's reason.
pub open spec fn relay_refusal_text(url: Seq<char>, reason: Seq<char>) -> Seq<char> {
    "relay URL "@ + debug_text(url) + ": "@ + reason
}

/// A relay server of the user's choosing: the parsed URL, and its text as the URL writes it.
#[derive(Debug)]
pub struct CustomRelay {
    pub url: iroh_base::RelayUrl,
    pub text: String,
}

/// The transport's relay setting.
#[derive(Debug)]
pub enum RelaySetting {
    Default,
    Custom(CustomRelay),
    Disabled,
}

impl RelaySetting {
    /// Whether this is the setting `choice` stands for: the same kind, and for a custom relay
    /// the URL that the choice's text parses to.
    pub open spec fn given_by(&self, choice: RelayChoice) -> bool {
        match choice {
            RelayChoice::Default => *self is Default,
            RelayChoice::Disabled => *self is Disabled,
            RelayChoice::Custom(url) => *self matches RelaySetting::Custom(c) && relay_url_parse(url@) == Ok::<
                Seq<char>,
                Seq<char>,
            >(c.text@),
        }
    }
}

/// Serialised as `[relay] mode = "default" | "custom" | "disabled"`, with `url` for custom.
#[derive(Debug, Clone, PartialEq, Eq)]
pub enum RelayChoice {
    Default,
    Custom(String),
    Disabled,
}

impl RelayChoice {
    /// Whether the choice can be turned into a transport setting.
    pub open spec fn usable(&self) -> bool {
        match self {
            RelayChoice::Custom(url) => relay_url_parse(url@) is Ok,
            _ => true,
        }
    }

    /// The refusal of a choice that is not usable: a custom URL's text and the parser's reason.
    pub open spec fn refusal(&self) -> Seq<char> {
        match self {
            RelayChoice::Custom(url) => relay_refusal_text(url@, relay_url_parse(url@)->Err_0),
            _ => Seq::empty(),
        }
    }

    /// The transport setting, or the refusal of a custom URL that does not parse.
    pub fn to_relay_setting(&self) -> (r: Result<RelaySetting, String>)
        ensures
            r is Ok == self.usable(),
            r matches Ok(s) ==> s.given_by(*self),
            r matches Err(m) ==> m@ == self.refusal(),
            r matches Err(m) ==> m@.len() >= 10 && m@.take(10) == "relay URL "@,
    {
        match self {
            RelayChoice::Default => Ok(RelaySetting::Default),
            RelayChoice::Disabled => Ok(RelaySetting::Disabled),
            RelayChoice::Custom(url) => match parse_relay_url(url.as_str()) {
                Ok((parsed, text)) => Ok(RelaySetting::Custom(CustomRelay { url: parsed, text })),
                Err(reason) => {
                    let quoted = debug_quoted(url.as_str());
                    let mut message = String::new();
                    message.append("relay URL ");
                    message.append(quoted.as_str());
                    message.append(": ");
                    message.append(reason.as_str());
                    proof {
                        reveal_strlit("relay URL ");
                    }
                    assert(message@ =~= relay_refusal_text(url@, reason@));
                    assert(message@.len() >= 10);
                    assert(message@.take(10) =~= "relay URL "@);
                    Err(message)
                },
            },
        }
    }
}

impl Default for RelayChoice {
    fn default() -> (c: RelayChoice)
        ensures
            c is Default,
    {
        RelayChoice::Default
    }
}

/// Which applications the audio carries, as the file holds it.
#[derive(Debug, Clone, Copy, PartialEq, Eq, Structural)]
pub enum AudioMode {
    All,
    Only,
}

impl Default for AudioMode {
    fn default() -> (m: AudioMode)
        ensures
            m == AudioMode::All,
    {
        AudioMode::All
    }
}

/// Serialised as `[audio.applications] mode = "all" | "only"` with `names`. Both fields are
/// always kept: flipping to every application for a film and back must not lose the set.
#[derive(Debug, Clone, PartialEq, Eq)]
pub struct AudioApplications {
    pub mode: AudioMode,
    pub names: Vec<String>,
}

impl Default for AudioApplications {
    fn default() -> (a: AudioApplications)
        ensures
            a.mode == AudioMode::All,
            a.names@.len() == 0,
    {
        AudioApplications { mode: AudioMode::All, names: Vec::new() }
    }
}

/// The identities of `names` under the rule of `platform`, as a set.
pub open spec fn name_keys_on(names: Seq<String>, platform: Platform) -> Set<Seq<char>> {
    Set::new(|k: Seq<char>| exists|i: int| 0 <= i < names.len() && k == normalised(#[trigger] names[i]@, platform))
}

/// The identities of `names` under the POSIX rule, as a set.
pub open spec fn name_keys(names: Seq<String>) -> Set<Seq<char>> {
    name_keys_on(names, Platform::Posix)
}

/// The identities of `names` under the rule of `platform`, each once: the settings file
/// behaves like the platform that reads it.
pub fn keys_of_names_on(names: &Vec<String>, platform: Platform) -> (keys: KeySet)
    ensures
        keys.wf(),
        keys.members() == name_keys_on(names@, platform),
{
    let mut keys = KeySet::new();
    let mut i: usize = 0;
    while i < names.len()
        invariant
            i <= names@.len(),
            keys.wf(),
            keys.members() == Set::new(|k: Seq<char>| exists|j: int| 0 <= j < i && k == normalised(#[trigger] names@[j]@, platform)),
        decreases names@.len() - i,
    {
        let key = AppKey::on(platform, names[i].as_str());
        let ghost before = keys.members();
        keys.insert(key);
        proof {
            let next = Set::new(|k: Seq<char>| exists|j: int| 0 <= j < i + 1 && k == normalised(#[trigger] names@[j]@, platform));
            assert forall|k: Seq<char>| #[trigger] keys.members().contains(k) == next.contains(k) by {
                if k == normalised(names@[i as int]@, platform) {
                    assert(next.contains(k));
                }
                if next.contains(k) && k != normalised(names@[i as int]@, platform) {
                    let j = choose|j: int| 0 <= j < i + 1 && k == normalised(#[trigger] names@[j]@, platform);
                    assert(j < i);
                    assert(before.contains(k));
                }
            }
            assert(keys.members() =~= next);
        }
        i = i + 1;
    }
    assert(keys.members() =~= name_keys_on(names@, platform));
    keys
}

impl AudioApplications {
    /// What the room captures with on `platform`. Names go through [`AppKey`] under that
    /// platform's rule, so a hand-edited path still matches its executable, and on Windows a
    /// name matches whatever its case.
    pub fn to_selection_on(&self, platform: Platform) -> (s: AudioSelection)
        ensures
            s.wf(),
            self.mode == AudioMode::All ==> s is All,
            self.mode == AudioMode::Only ==> s is Only && s->Only_0.members() == name_keys_on(self.names@, platform),
    {
        match self.mode {
            AudioMode::All => AudioSelection::All,
            AudioMode::Only => AudioSelection::Only(keys_of_names_on(&self.names, platform)),
        }
    }

    /// What the room captures with, under the POSIX rule.
    pub fn to_selection(&self) -> (s: AudioSelection)
        ensures
            s.wf(),
            self.mode == AudioMode::All ==> s is All,
            self.mode == AudioMode::Only ==> s is Only && s->Only_0.members() == name_keys(self.names@),
    {
        self.to_selection_on(Platform::Posix)
    }
}

/// The audio settings: where playback goes and which applications are carried.
#[derive(Debug, Clone, PartialEq, Eq)]
pub struct AudioSettings {
    /// An output device id; `None` is the system default.
    pub output_device: Option<String>,
    pub applications: AudioApplications,
}

impl Default for AudioSettings {
    fn default() -> (a: AudioSettings)
        ensures
            a.output_device is None,
            a.applications.mode == AudioMode::All,
            a.applications.names@.len() == 0,
    {
        AudioSettings { output_device: None, applications: AudioApplications::default() }
    }
}

/// A room the user created or joined: the ticket that got them in, and when.
#[derive(Debug, Clone, PartialEq, Eq)]
pub struct RecentRoom {
    pub ticket: String,
    pub last_joined_unix: u64,
}

/// A recent room as text and time.
pub open spec fn room_view(r: RecentRoom) -> (Seq<char>, u64) {
    (r.ticket@, r.last_joined_unix)
}

/// The recent rooms as texts and times.
pub open spec fn rooms_view(s: Seq<RecentRoom>) -> Seq<(Seq<char>, u64)> {
    s.map_values(|r: RecentRoom| room_view(r))
}

/// `s` without the rooms whose ticket is `ticket`, the rest in order.
pub open spec fn without_ticket(s: Seq<(Seq<char>, u64)>, ticket: Seq<char>) -> Seq<(Seq<char>, u64)>
    decreases s.len(),
{
    if s.len() == 0 {
        s
    } else if s.last().0 == ticket {
        without_ticket(s.drop_last(), ticket)
    } else {
        without_ticket(s.drop_last(), ticket).push(s.last())
    }
}

/// `s` cut to the most recent rooms the list keeps.
pub open spec fn capped(s: Seq<(Seq<char>, u64)>) -> Seq<(Seq<char>, u64)> {
    if s.len() <= RECENT_ROOMS_MAX { s } else { s.take(RECENT_ROOMS_MAX as int) }
}

/// The list after remembering `ticket` at `now`: it first, older entries for it dropped, cut
/// to the cap.
pub open spec fn remembered(s: Seq<(Seq<char>, u64)>, ticket: Seq<char>, now: u64) -> Seq<(Seq<char>, u64)> {
    capped(seq![(ticket, now)] + without_ticket(s, ticket))
}

/// Everything the file holds. Unknown keys are ignored on load and missing keys take their
/// defaults.
#[derive(Debug, Clone, PartialEq, Eq)]
pub struct Settings {
    pub nickname: Option<String>,
    pub fps: u32,
    pub relay: RelayChoice,
    pub audio: AudioSettings,
    pub recent_rooms: Vec<RecentRoom>,
}

impl Settings {
    /// Whether these are the settings of a first run: no nickname, the default rate and relay,
    /// the system's output device, every application's audio with no names kept, and no recent
    /// rooms.
    pub open spec fn is_default(&self) -> bool {
        &&& self.nickname is None
        &&& self.fps == DEFAULT_FPS
        &&& self.relay is Default
        &&& self.audio.output_device is None
        &&& self.audio.applications.mode == AudioMode::All
        &&& self.audio.applications.names@.len() == 0
        &&& self.recent_rooms@.len() == 0
    }
}

impl Default for Settings {
    fn default() -> (s: Settings)
        ensures
            s.is_default(),
    {
        Settings {
            nickname: None,
            fps: DEFAULT_FPS,
            relay: RelayChoice::Default,
            audio: AudioSettings::default(),
            recent_rooms: Vec::new(),
        }
    }
}

impl RecentRoom {
    /// A second entry with the same ticket and time.
    pub fn copy(&self) -> (r: RecentRoom)
        ensures
            r == *self,
    {
        RecentRoom { ticket: self.ticket.clone(), last_joined_unix: self.last_joined_unix }
    }
}

/// A second copy of optional text.
pub fn copy_opt_string(s: &Option<String>) -> (r: Option<String>)
    ensures
        r == *s,
{
    match s {
        Some(t) => Some(t.clone()),
        None => None,
    }
}

/// A second copy of a list of strings.
pub fn copy_strings(v: &Vec<String>) -> (r: Vec<String>)
    ensures
        r@ == v@,
{
    let mut out: Vec<String> = Vec::new();
    let mut i: usize = 0;
    while i < v.len()
        invariant
            i <= v@.len(),
            out@ == v@.take(i as int),
        decreases v@.len() - i,
    {
        out.push(v[i].clone());
        assert(v@.take(i + 1) =~= v@.take(i as int).push(v@[i as int]));
        i = i + 1;
    }
    assert(v@.take(v@.len() as int) =~= v@);
    out
}

impl RelayChoice {
    /// A second copy of the choice.
    pub fn copy(&self) -> (c: RelayChoice)
        ensures
            c == *self,
    {
        match self {
            RelayChoice::Default => RelayChoice::Default,
            RelayChoice::Custom(url) => RelayChoice::Custom(url.clone()),
            RelayChoice::Disabled => RelayChoice::Disabled,
        }
    }
}

impl Settings {
    /// Whether two settings hold the same values.
    pub open spec fn same_as(&self, other: &Settings) -> bool {
        &&& self.nickname == other.nickname
        &&& self.fps == other.fps
        &&& self.relay == other.relay
        &&& self.audio.output_device == other.audio.output_device
        &&& self.audio.applications.mode == other.audio.applications.mode
        &&& self.audio.applications.names@ == other.audio.applications.names@
        &&& self.recent_rooms@ == other.recent_rooms@
    }

    /// A second copy of the settings.
    pub fn copy(&self) -> (s: Settings)
        ensures
            s.same_as(self),
    {
        let mut rooms: Vec<RecentRoom> = Vec::new();
        let mut i: usize = 0;
        while i < self.recent_rooms.len()
            invariant
                i <= self.recent_rooms@.len(),
                rooms@ == self.recent_rooms@.take(i as int),
            decreases self.recent_rooms@.len() - i,
        {
            rooms.push(self.recent_rooms[i].copy());
            assert(self.recent_rooms@.take(i + 1) =~= self.recent_rooms@.take(i as int).push(self.recent_rooms@[i as int]));
            i = i + 1;
        }
        assert(self.recent_rooms@.take(self.recent_rooms@.len() as int) =~= self.recent_rooms@);
        let s = Settings {
            nickname: copy_opt_string(&self.nickname),
            fps: self.fps,
            relay: self.relay.copy(),
            audio: AudioSettings {
                output_device: copy_opt_string(&self.audio.output_device),
                applications: AudioApplications {
                    mode: self.audio.applications.mode,
                    names: copy_strings(&self.audio.applications.names),
                },
            },
            recent_rooms: rooms,
        };
        assert(s.recent_rooms@ =~= self.recent_rooms@);
        assert(s.audio.applications.names@ =~= self.audio.applications.names@);
        s
    }
}

impl Settings {
    /// What saving refuses: a zero frame rate, or a custom relay URL that does not parse.
    pub open spec fn valid(&self) -> bool {
        self.fps != 0 && self.relay.usable()
    }

    /// Puts `ticket` first with `now_unix`, dropping an older entry for the same ticket and
    /// anything beyond [`RECENT_ROOMS_MAX`].
    pub fn remember_room(&mut self, ticket: &str, now_unix: u64)
        ensures
            rooms_view(final(self).recent_rooms@) == remembered(
                rooms_view(old(self).recent_rooms@),
                ticket@,
                now_unix,
            ),
            final(self).nickname == old(self).nickname,
            final(self).fps == old(self).fps,
            final(self).relay == old(self).relay,
            final(self).audio == old(self).audio,
    {
        let ghost s = rooms_view(self.recent_rooms@);
        let mut out: Vec<RecentRoom> = Vec::new();
        out.push(RecentRoom { ticket: ticket.to_owned(), last_joined_unix: now_unix });
        let ghost first = seq![(ticket@, now_unix)];
        assert(rooms_view(out@) =~= first);
        assert(s.take(0) =~= Seq::<(Seq<char>, u64)>::empty());
        assert(capped(first + without_ticket(s.take(0), ticket@)) =~= first);
        let mut i: usize = 0;
        while i < self.recent_rooms.len()
            invariant
                i <= self.recent_rooms@.len(),
                s == rooms_view(self.recent_rooms@),
                first == seq![(ticket@, now_unix)],
                rooms_view(out@) == capped(first + without_ticket(s.take(i as int), ticket@)),
            decreases self.recent_rooms@.len() - i,
        {
            let room = &self.recent_rooms[i];
            let ghost full = first + without_ticket(s.take(i as int), ticket@);
            assert(s.take(i + 1).drop_last() =~= s.take(i as int));
            assert(s.take(i + 1).last() == room_view(*room));
            if room.ticket.as_str().to_owned() != ticket.to_owned() {
                assert(first + without_ticket(s.take(i + 1), ticket@) =~= full.push(room_view(*room)));
                if out.len() < RECENT_ROOMS_MAX {
                    out.push(room.copy());
                    assert(rooms_view(out@) =~= capped(full).push(room_view(*room)));
                    assert(capped(full.push(room_view(*room))) =~= capped(full).push(room_view(*room)));
                } else {
                    assert(capped(full.push(room_view(*room))) =~= capped(full));
                }
            } else {
                assert(first + without_ticket(s.take(i + 1), ticket@) =~= full);
            }
            i = i + 1;
        }
        assert(s.take(self.recent_rooms@.len() as int) =~= s);
        self.recent_rooms = out;
    }

    /// Checks what saving refuses: a zero frame rate first, then a custom relay URL that does not
    /// parse.
    pub fn validate(&self) -> (r: Result<(), String>)
        ensures
            r is Ok == self.valid(),
            self.fps == 0 ==> (r matches Err(m) && m@ == "frame rate ceiling must be at least 1"@),
            self.fps != 0 ==> (r matches Err(m) ==> m@ == self.relay.refusal()),
            self.fps != 0 ==> (r matches Err(m) ==> m@.len() >= 10 && m@.take(10) == "relay URL "@),
    {
        if self.fps == 0 {
            return Err("frame rate ceiling must be at least 1".to_owned());
        }
        match self.relay.to_relay_setting() {
            Ok(_) => Ok(()),
            Err(message) => Err(message),
        }
    }

    /// The outcome of loading the file at `path`: `None` when the file does not exist, which
    /// yields the defaults; a read or parse failure, or settings `validate` refuses, is an error
    /// naming the path.
    pub fn accept_loaded(path: &str, loaded: Option<Result<Settings, String>>) -> (r: Result<Settings, String>)
        ensures
            loaded is None ==> (r matches Ok(s) && s.is_default()),
            loaded matches Some(Err(e)) ==> (r matches Err(m) && m@ == path@ + ": "@ + e@),
            loaded matches Some(Ok(s)) ==> (s.valid() ==> r == Ok::<Settings, String>(s)),
            loaded matches Some(Ok(s)) ==> (!s.valid() ==> r is Err && r->Err_0@.take(path@.len() + 2int) == path@ + ": "@),
    {
        match loaded {
            None => Ok(Settings::default()),
            Some(Err(e)) => {
                let prefix = concat(path, ": ");
                Err(concat(prefix.as_str(), e.as_str()))
            },
            Some(Ok(s)) => match s.validate() {
                Ok(()) => Ok(s),
                Err(message) => {
                    let prefix = concat(path, ": ");
                    let m = concat(prefix.as_str(), message.as_str());
                    proof {
                        reveal_strlit(": ");
                    }
                    assert(m@.take(path@.len() + 2int) =~= path@ + ": "@);
                    Err(m)
                },
            },
        }
    }
}

/// The nickname rule shared by the dialog and the start screen: surrounding white space is
/// dropped and an empty result means "no saved nickname".
pub fn normalised_nickname(text: &str) -> (r: Option<String>)
    ensures
        trimmed(text@).len() == 0 ==> r is None,
        trimmed(text@).len() > 0 ==> (r matches Some(n) && n@ == trimmed(text@)),
{
    let t = trim(text);
    if t.as_str().unicode_len() == 0 {
        None
    } else {
        Some(t)
    }
}

/// The nickname rule keeps what it kept: a saved nickname, normalised again when the dialog or
/// the start screen saves it once more, is saved unchanged.
pub proof fn lemma_nickname_rule_is_idempotent(text: Seq<char>)
    ensures
        trimmed(trimmed(text)) == trimmed(text),
{
    lemma_trimmed_is_stable(text);
}

/// The settings together with where they live and whether loading them failed.
#[derive(Debug)]
pub struct SettingsStore {
    pub settings: Settings,
    pub path: String,
    /// Set when the file exists but could not be read, parsed, or accepted. The defaults are in
    /// use and nothing is written until the user saves.
    pub load_error: Option<String>,
}

impl SettingsStore {
    /// The store for the file at `path`, given what loading it produced: the settings on success,
    /// else the defaults with the failure recorded.
    pub fn load_at(path: String, loaded: Result<Settings, String>) -> (store: SettingsStore)
        ensures
            store.path == path,
            loaded matches Ok(s) ==> store.settings == s && store.load_error is None,
            loaded matches Err(e) ==> store.load_error == Some(e) && store.settings.is_default(),
    {
        match loaded {
            Ok(settings) => SettingsStore { settings, path, load_error: None },
            Err(error) => SettingsStore { settings: Settings::default(), path, load_error: Some(error) },
        }
    }

    /// Saves through `write`, which writes the settings to the store's path, and on success clears
    /// a load error: the file is now what was written.
    pub fn save<W: FnOnce(&Settings, &String) -> Result<(), String>>(&mut self, write: W) -> (r: Result<(), String>)
        requires
            write.requires((&old(self).settings, &old(self).path)),
        ensures
            write.ensures((&old(self).settings, &old(self).path), r),
            final(self).settings == old(self).settings,
            final(self).path == old(self).path,
            r is Ok ==> final(self).load_error is None,
            r is Err ==> final(self).load_error == old(self).load_error,
    {
        let written = write(&self.settings, &self.path);
        if written.is_ok() {
            self.load_error = None;
        }
        written
    }

    /// Saves unless the file failed to load: after a load failure the defaults are in use, and
    /// writing them would replace the user's file, which only an explicit save may do. Returns
    /// whether a write happened.
    pub fn save_unless_load_failed<W: FnOnce(&Settings, &String) -> Result<(), String>>(&mut self, write: W) -> (r: Result<bool, String>)
        requires
            old(self).load_error is None ==> write.requires((&old(self).settings, &old(self).path)),
        ensures
            old(self).load_error is Some ==> r == Ok::<bool, String>(false) && *final(self) == *old(self),
            old(self).load_error is None ==> exists|w: Result<(), String>| #[trigger] write.ensures(
                (&old(self).settings, &old(self).path),
                w,
            ) && r == (match w {
                Ok(_) => Ok::<bool, String>(true),
                Err(e) => Err::<bool, String>(e),
            }),
            old(self).load_error is None ==> final(self).load_error is None && final(self).settings == old(
                self,
            ).settings && final(self).path == old(self).path,
    {
        if self.load_error.is_some() {
            return Ok(false);
        }
        match self.save(write) {
            Ok(()) => Ok(true),
            Err(e) => Err(e),
        }
    }
}

/// No two rooms of `s` share a ticket.
pub open spec fn tickets_unique(s: Seq<(Seq<char>, u64)>) -> bool {
    forall|i: int, j: int| 0 <= i < j < s.len() ==> (#[trigger] s[i]).0 != (#[trigger] s[j]).0
}

/// What `without_ticket` keeps: rooms of `s` under other tickets, no more than `s` has, and
/// without repeats when `s` had none.
proof fn lemma_without_ticket(s: Seq<(Seq<char>, u64)>, ticket: Seq<char>)
    ensures
        without_ticket(s, ticket).len() <= s.len(),
        forall|i: int| 0 <= i < without_ticket(s, ticket).len() ==> (#[trigger] without_ticket(s, ticket)[i]).0
            != ticket && s.contains(without_ticket(s, ticket)[i]),
        tickets_unique(s) ==> tickets_unique(without_ticket(s, ticket)),
    decreases s.len(),
{
    if s.len() > 0 {
        let d = s.drop_last();
        lemma_without_ticket(d, ticket);
        let w = without_ticket(d, ticket);
        assert forall|x: (Seq<char>, u64)| d.contains(x) implies s.contains(x) by {
            let k = choose|k: int| 0 <= k < d.len() && d[k] == x;
            assert(s[k] == x);
        }
        if s.last().0 != ticket {
            let w2 = w.push(s.last());
            assert(s.contains(s.last())) by {
                assert(s[s.len() - 1] == s.last());
            }
            assert forall|i: int| 0 <= i < w2.len() implies (#[trigger] w2[i]).0 != ticket && s.contains(w2[i]) by {
                if i < w.len() {
                    assert(w2[i] == w[i]);
                }
            }
            if tickets_unique(s) {
                assert(tickets_unique(d));
                assert forall|i: int, j: int| 0 <= i < j < w2.len() implies (#[trigger] w2[i]).0 != (#[trigger] w2[j]).0 by {
                    if j == w.len() {
                        assert(w2[i] == w[i]);
                        assert(d.contains(w[i]));
                        let k = choose|k: int| 0 <= k < d.len() && d[k] == w[i];
                        assert(s[k] == d[k]);
                        assert(s[k].0 != s[s.len() - 1].0);
                    } else {
                        assert(w2[i] == w[i] && w2[j] == w[j]);
                    }
                }
            }
        }
    }
}

/// Remembering a room puts it first with its time, keeps it there once, and keeps the list
/// within [`RECENT_ROOMS_MAX`]; a list without repeated tickets stays without them.
pub proof fn lemma_remembered_room_is_first_and_once(s: Seq<(Seq<char>, u64)>, ticket: Seq<char>, now: u64)
    ensures
        remembered(s, ticket, now).len() >= 1,
        remembered(s, ticket, now).len() <= RECENT_ROOMS_MAX,
        remembered(s, ticket, now)[0] == (ticket, now),
        forall|i: int| 1 <= i < remembered(s, ticket, now).len() ==> (#[trigger] remembered(s, ticket, now)[i]).0 != ticket,
        tickets_unique(s) ==> tickets_unique(remembered(s, ticket, now)),
{
    lemma_without_ticket(s, ticket);
    let w = without_ticket(s, ticket);
    let all = seq![(ticket, now)] + w;
    assert forall|i: int| 1 <= i < all.len() implies (#[trigger] all[i]).0 != ticket by {
        assert(all[i] == w[i - 1]);
    }
    if tickets_unique(s) {
        assert forall|i: int, j: int| 0 <= i < j < all.len() implies (#[trigger] all[i]).0 != (#[trigger] all[j]).0 by {
            assert(all[j] == w[j - 1]);
            if i > 0 {
                assert(all[i] == w[i - 1]);
            }
        }
    }
    let r = remembered(s, ticket, now);
    assert forall|i: int| 1 <= i < r.len() implies (#[trigger] r[i]).0 != ticket by {
        assert(r[i] == all[i]);
    }
    if tickets_unique(s) {
        assert forall|i: int, j: int| 0 <= i < j < r.len() implies (#[trigger] r[i]).0 != (#[trigger] r[j]).0 by {
            assert(r[i] == all[i] && r[j] == all[j]);
        }
    }
}

} // verus!
