use std::collections::HashSet;

use brp::applications::{selection_summary, ApplicationPicker};
use brp::cli::{CodecArg, SourceArg, WindowArgs, DEFAULT_FPS};
use brp::dirty::DirtyStreams;
use brp::kinds::{codec_name, path_badge, Codec, PathKind, SourceId, SourceKind};
use brp::launch::Launch;
use brp::popouts::PopOuts;
use brp::presets::{offered_preset, toggle_template, with_bitrate, with_codec, with_fps, LiveInfo, Preset, SOURCE_PRESET_ID};
use brp::relaunch::{relaunch_args, Relaunch};
use brp::rows::{
    can_share, current_codec, current_fps, live_label, preset_choice_label, preset_row_label, preset_status, row_changes,
    settle_edit, source_line, EditOutcome, EncoderSummary, StatusTone, WatchChange,
};
use brp::selection::{AppKey, AudioSelection, AudioSource, KeySet};
use brp::settings::{AudioApplications, AudioMode, AudioSettings, RelayChoice, RelaySetting, Settings};
use brp::state::{BitrateMeter, EncoderReading, ShareRequest, SourceDescriptor, SourcePicker, UiState};
use brp::tiles::{stats_line, status_line, Placement, TileKey, WatchPhase, WindowAction};
use brp::update::{notice, Release, UpdatePhase, UpdateState, Version};

fn key(n: u8) -> TileKey {
    TileKey { publisher: [n; 32], live_id: u32::from(n) }
}

fn keys(v: Vec<TileKey>) -> HashSet<(Vec<u8>, u32)> {
    v.into_iter().map(|k| (k.publisher.to_vec(), k.live_id)).collect()
}

fn key_set(v: &[TileKey]) -> HashSet<(Vec<u8>, u32)> {
    v.iter().map(|k| (k.publisher.to_vec(), k.live_id)).collect()
}

fn same(a: Option<TileKey>, b: Option<TileKey>) -> bool {
    match (a, b) {
        (Some(x), Some(y)) => x.same(&y),
        (None, None) => true,
        _ => false,
    }
}

// ---- pop-outs

#[test]
fn a_popped_key_is_found_from_both_sides() {
    let mut popouts = PopOuts::new();
    assert!(popouts.insert(1, key(1)));
    assert!(same(popouts.key_of(1), Some(key(1))));
    assert_eq!(popouts.window_of(key(1)), Some(1));
    assert!(popouts.is_popped(key(1)));
    assert!(!popouts.is_popped(key(2)));
    assert!(same(popouts.key_of(2), None));
}

#[test]
fn a_key_is_never_in_two_windows() {
    let mut popouts = PopOuts::new();
    assert!(popouts.insert(1, key(1)));
    assert!(!popouts.insert(2, key(1)));
    assert_eq!(popouts.window_of(key(1)), Some(1));
    assert!(same(popouts.key_of(2), None));
    assert_eq!(keys(popouts.popped()), key_set(&[key(1)]));
}

#[test]
fn removing_by_window_and_by_key_are_inverses() {
    let mut popouts = PopOuts::new();
    popouts.insert(1, key(1));
    popouts.insert(2, key(2));
    assert!(same(popouts.remove_window(1), Some(key(1))));
    assert!(same(popouts.remove_window(1), None));
    assert_eq!(popouts.remove_key(key(2)), Some(2));
    assert_eq!(popouts.remove_key(key(2)), None);
    assert!(popouts.is_empty());
}

#[test]
fn retain_watched_closes_exactly_the_windows_whose_live_ended() {
    let mut popouts = PopOuts::new();
    popouts.insert(1, key(1));
    popouts.insert(2, key(2));
    popouts.insert(3, key(3));
    let watched = [key(1), key(3), key(9)];
    let mut closed = popouts.retain_watched(&watched);
    closed.sort_unstable();
    assert_eq!(closed, [2]);
    assert_eq!(keys(popouts.popped()), key_set(&[key(1), key(3)]));
    assert!(popouts.retain_watched(&watched).is_empty());
}

#[test]
fn a_window_that_shows_another_live_is_repointed() {
    let mut popouts = PopOuts::new();
    assert!(popouts.insert(1, key(1)));
    assert!(popouts.insert(1, key(2)));
    assert!(same(popouts.key_of(1), Some(key(2))));
    assert!(!popouts.is_popped(key(1)));
    assert_eq!(popouts.popped().len(), 1);
}

#[test]
fn keys_differing_only_in_the_publisher_are_different_lives() {
    let a = TileKey { publisher: [1; 32], live_id: 7 };
    let mut b = a;
    b.publisher[31] = 2;
    assert!(!a.same(&b));
    assert!(a.same(&a));
    let mut popouts = PopOuts::new();
    assert!(popouts.insert(1, a));
    assert!(popouts.insert(2, b));
}

// ---- dirty streams

#[test]
fn the_first_mark_wakes_and_later_marks_before_a_drain_do_not() {
    let mut dirty = DirtyStreams::new();
    assert!(dirty.mark(key(1)));
    assert!(!dirty.mark(key(1)), "already dirty, no second wakeup");
    assert!(!dirty.mark(key(2)), "still nothing drained since the first mark");
}

#[test]
fn draining_empties_the_set_and_the_next_mark_wakes_again() {
    let mut dirty = DirtyStreams::new();
    dirty.mark(key(1));
    dirty.mark(key(2));
    let drained = dirty.drain();
    assert_eq!(keys(drained), key_set(&[key(1), key(2)]));
    assert!(dirty.drain().is_empty(), "a second drain finds nothing new");
    assert!(dirty.mark(key(3)), "empty again, so marking wakes once more");
}

#[test]
fn pending_state_is_bounded_by_distinct_streams_not_frame_count() {
    let mut dirty = DirtyStreams::new();
    for _ in 0..1000 {
        dirty.mark(key(1));
    }
    assert_eq!(keys(dirty.drain()), key_set(&[key(1)]));
}

// ---- window state

fn descriptor(id: u64) -> SourceDescriptor {
    SourceDescriptor {
        id: SourceId(id),
        kind: SourceKind::Monitor,
        name: format!("Monitor {id}"),
        width: 1920,
        height: 1080,
    }
}

const SECOND: u64 = 1_000_000_000;
const INTERVAL: u64 = 5 * SECOND;

#[test]
fn titles_count_per_kind_and_never_repeat() {
    let mut state = UiState::new();
    assert_eq!(state.next_title(SourceKind::Monitor), "Monitor 1");
    assert_eq!(state.next_title(SourceKind::Window), "Window 1");
    assert_eq!(state.next_title(SourceKind::Monitor), "Monitor 2");
}

#[test]
fn meter_reports_kilobits_per_second_once_per_interval() {
    let start = 7 * SECOND;
    let mut meter = BitrateMeter::default();
    assert_eq!(meter.update(0, start, INTERVAL), 0);
    assert_eq!(meter.update(1_000, start + 100_000_000, INTERVAL), 0);
    let bytes = 250_000 * (INTERVAL / SECOND);
    assert_eq!(meter.update(bytes, start + INTERVAL, INTERVAL), 2_000);
    assert_eq!(meter.update(bytes, start + INTERVAL + 1_000_000, INTERVAL), 2_000);
    assert_eq!(meter.kbps(), 2_000);
}

#[test]
fn a_meter_whose_counter_went_back_reports_zero() {
    let mut meter = BitrateMeter::default();
    meter.update(10_000, 0, SECOND);
    assert_eq!(meter.update(5_000, 2 * SECOND, SECOND), 0);
}

fn reading(bytes: Option<u64>) -> EncoderReading {
    EncoderReading { live_id: 7, preset_id: 1, bytes_encoded: bytes }
}

#[test]
fn per_encoder_rates_follow_the_snapshot_and_vanish_when_the_encoder_stops() {
    let start = 3 * SECOND;
    let mut state = UiState::new();
    state.refresh_rates(&[reading(Some(0))], start, INTERVAL);
    assert_eq!(state.preset_kbps(7, 1), Some(0));
    let bytes = 250_000 * (INTERVAL / SECOND);
    state.refresh_rates(&[reading(Some(bytes))], start + INTERVAL, INTERVAL);
    assert_eq!(state.preset_kbps(7, 1), Some(2_000));
    assert_eq!(state.upload_kbps, 2_000);
    state.refresh_rates(&[reading(None)], start + 2 * INTERVAL, INTERVAL);
    assert_eq!(state.preset_kbps(7, 1), None);
}

#[test]
fn a_later_reading_of_the_same_encoder_wins() {
    let mut state = UiState::new();
    state.refresh_rates(&[reading(Some(0))], 0, SECOND);
    state.refresh_rates(&[reading(Some(999)), reading(Some(125_000))], SECOND, SECOND);
    assert_eq!(state.preset_kbps(7, 1), Some(1_000));
    assert_eq!(state.upload_kbps, 1_007, "the upload meter sums every reading");
}

#[test]
fn picking_a_listed_source_issues_the_share_and_closes_the_picker() {
    let mut state = UiState::new();
    assert!(state.open_picker(SourceKind::Monitor, vec![descriptor(1), descriptor(2)]));
    assert_eq!(
        state.pick_source(SourceId(2)),
        Some(ShareRequest { kind: SourceKind::Monitor, source: Some(SourceId(2)) })
    );
    assert!(state.picker.is_none());
}

#[test]
fn an_unlisted_id_or_a_closed_picker_yields_no_command() {
    let mut state = UiState::new();
    assert_eq!(state.pick_source(SourceId(1)), None);
    assert!(state.open_picker(SourceKind::Window, vec![descriptor(1)]));
    assert_eq!(state.pick_source(SourceId(9)), None);
    assert!(state.picker.is_some());
    state.cancel_picker();
    assert!(state.picker.is_none());
}

#[test]
fn the_picker_does_not_open_while_a_share_is_pending() {
    let mut state = UiState::new();
    state.share_pending = true;
    assert!(!state.open_picker(SourceKind::Monitor, vec![descriptor(1)]));
    assert!(state.picker.is_none());
}

#[test]
fn the_picker_does_not_reopen_while_one_is_open() {
    let mut state = UiState::new();
    assert!(state.open_picker(SourceKind::Monitor, vec![descriptor(1)]));
    assert!(!state.open_picker(SourceKind::Window, vec![descriptor(2)]));
    assert_eq!(
        state.picker,
        Some(SourcePicker { kind: SourceKind::Monitor, choices: vec![descriptor(1)] })
    );
}

// ---- updates

fn release() -> Release {
    Release { version: Version(0, 6, 0), tag: "v0.6.0".into() }
}

#[test]
fn start_hands_out_the_release_once_until_the_download_settles() {
    let mut state = UpdateState::new(true);
    assert_eq!(state.start(), None, "nothing available yet");
    state.available = Some(release());
    assert_eq!(state.start(), Some(release()));
    assert!(matches!(state.phase, UpdatePhase::Downloading { .. }));
    assert_eq!(state.start(), None, "one download at a time");
    state.progress(5, Some(10));
    assert_eq!(state.phase, UpdatePhase::Downloading { received: 5, total: Some(10) });
    state.failed("network".into());
    assert_eq!(state.phase, UpdatePhase::Failed("network".into()));
    assert_eq!(state.start(), Some(release()), "a failure allows a retry");
}

#[test]
fn without_a_release_layout_nothing_can_be_started() {
    let mut state = UpdateState::new(false);
    state.available = Some(release());
    assert_eq!(state.start(), None);
    assert_eq!(state.phase, UpdatePhase::Idle);
}

#[test]
fn progress_outside_a_download_is_ignored() {
    let mut state = UpdateState::new(true);
    state.progress(1, None);
    assert_eq!(state.phase, UpdatePhase::Idle);
}

#[test]
fn the_notice_names_the_version_and_points_at_the_page_when_nothing_can_be_applied() {
    let page = "https://example.org/releases";
    assert_eq!(notice(&release(), true, page), "v0.6.0 is available");
    assert_eq!(notice(&release(), false, page), format!("v0.6.0 is available at {page}"));
    let big = Release { version: Version(12, 0, 345), tag: "v12.0.345".into() };
    assert_eq!(notice(&big, true, page), "v12.0.345 is available");
}

// ---- relaunch and the command line

#[test]
fn in_a_room_the_new_process_joins_it_with_each_present_flag() {
    let args = WindowArgs { nickname: Some("alice".into()), fps: Some(30), no_relay: true };
    assert_eq!(
        relaunch_args(Some("brpticket"), &args),
        ["join", "brpticket", "--nickname", "alice", "--fps", "30", "--no-relay"]
    );
    assert_eq!(relaunch_args(Some("brpticket"), &WindowArgs::default()), ["join", "brpticket"]);
}

#[test]
fn from_the_start_screen_the_new_process_takes_no_arguments() {
    let args = WindowArgs { nickname: Some("alice".into()), fps: Some(30), no_relay: true };
    assert!(relaunch_args(None, &args).is_empty());
}

#[test]
fn the_relaunch_runs_the_exe_of_the_install_captured_at_startup() {
    let relaunch = Relaunch::new("/opt/brp/brp", Some("t"), &WindowArgs::default());
    assert_eq!(relaunch.exe, "/opt/brp/brp");
    assert_eq!(relaunch.args, ["join", "t"]);
}

#[test]
fn command_line_values_name_their_codec_and_source() {
    assert_eq!(Codec::from(CodecArg::H264), Codec::H264);
    assert_eq!(Codec::from(CodecArg::Hevc), Codec::Hevc);
    assert_eq!(Codec::from(CodecArg::Av1), Codec::Av1);
    assert_eq!(SourceKind::from(SourceArg::Monitor), SourceKind::Monitor);
    assert_eq!(SourceKind::from(SourceArg::Window), SourceKind::Window);
    assert_eq!(DEFAULT_FPS, 60);
}

// ---- presets

fn preset(id: u32, width: u32, height: u32) -> Preset {
    Preset {
        id,
        name: format!("p{id}"),
        width,
        height,
        fps: 60,
        bitrate_kbps: 5_000,
        codec: Codec::Hevc,
    }
}

fn ladder() -> Vec<Preset> {
    vec![preset(1, 2560, 1440), preset(2, 1920, 1080), preset(3, 1280, 720), preset(4, 852, 480)]
}

fn live() -> LiveInfo {
    let mut presets = ladder();
    presets.retain(|p| p.id <= 2);
    LiveInfo {
        id: 1,
        title: "desk".into(),
        kind: SourceKind::Monitor,
        source_width: 2560,
        source_height: 1440,
        source_fps: 60,
        has_audio: false,
        presets,
    }
}

fn ids(presets: &[Preset]) -> Vec<u32> {
    presets.iter().map(|p| p.id).collect()
}

#[test]
fn toggling_adds_a_missing_template_in_id_order_and_removes_a_present_one() {
    let info = live();
    let added = toggle_template(&info, 4, &ladder());
    assert_eq!(ids(&added), [1, 2, 4]);
    assert_eq!((added[2].width, added[2].height), (852, 480));
    let removed = toggle_template(&info, 2, &ladder());
    assert_eq!(ids(&removed), [1]);
}

#[test]
fn source_can_be_toggled_off_while_another_preset_remains() {
    let info = live();
    assert_eq!(ids(&toggle_template(&info, SOURCE_PRESET_ID, &ladder())), [2]);
}

#[test]
fn the_last_preset_cannot_be_toggled_off() {
    let mut info = live();
    info.presets.retain(|p| p.id == SOURCE_PRESET_ID);
    assert_eq!(toggle_template(&info, SOURCE_PRESET_ID, &ladder()), info.presets);
    info.presets = live().presets;
    info.presets.retain(|p| p.id == 2);
    assert_eq!(toggle_template(&info, 2, &ladder()), info.presets);
}

#[test]
fn unknown_ids_are_ignored() {
    let info = live();
    assert_eq!(toggle_template(&info, 99, &ladder()), info.presets);
}

#[test]
fn bitrate_applies_to_one_preset_and_clamps_to_the_allowed_range() {
    let info = live();
    let presets = with_bitrate(&info, 2, 999_999, 100, 50_000);
    assert_eq!(presets[1].bitrate_kbps, 50_000);
    assert_eq!(presets[0].bitrate_kbps, info.presets[0].bitrate_kbps);
    assert_eq!(with_bitrate(&info, 1, 10, 100, 50_000)[0].bitrate_kbps, 100);
}

#[test]
fn frame_rate_applies_to_every_preset_within_the_source_rate() {
    let info = live();
    assert!(with_fps(&info, 30).iter().all(|p| p.fps == 30));
    assert!(with_fps(&info, 144).iter().all(|p| p.fps == 60));
    assert!(with_fps(&info, 0).iter().all(|p| p.fps == 1));
}

#[test]
fn codec_applies_to_every_preset() {
    assert!(with_codec(&live(), Codec::H264).iter().all(|p| p.codec == Codec::H264));
}

#[test]
fn templates_follow_the_remaining_preset_when_source_is_absent() {
    let mut info = live();
    info.presets.retain(|p| p.id != SOURCE_PRESET_ID);
    assert_eq!(ids(&toggle_template(&info, 4, &ladder())), [2, 4]);
    let restored = toggle_template(&info, SOURCE_PRESET_ID, &ladder());
    assert_eq!(ids(&restored), [1, 2]);
    assert_eq!((restored[0].width, restored[0].height), (2560, 1440));
}

#[test]
fn edits_of_an_empty_preset_list_stay_empty() {
    let mut info = live();
    info.presets = Vec::new();
    assert!(with_fps(&info, 30).is_empty());
    assert!(with_codec(&info, Codec::Av1).is_empty());
    assert!(with_bitrate(&info, 1, 5_000, 100, 50_000).is_empty());
}

#[test]
fn keeps_the_wanted_preset_when_the_live_still_offers_it() {
    assert_eq!(offered_preset(&live(), Some(2)), Some(2));
}

#[test]
fn falls_back_to_source_when_the_wanted_preset_is_gone() {
    assert_eq!(offered_preset(&live(), Some(9)), Some(1));
}

#[test]
fn falls_back_to_source_when_nothing_is_wanted() {
    assert_eq!(offered_preset(&live(), None), Some(1));
}

#[test]
fn falls_back_to_the_first_preset_when_source_is_absent() {
    let mut info = live();
    info.presets = ladder();
    info.presets.retain(|p| p.id == 2 || p.id == 3);
    assert_eq!(offered_preset(&info, None), Some(2));
}

#[test]
fn keeps_the_wanted_preset_even_without_source() {
    let mut info = live();
    info.presets = ladder();
    info.presets.retain(|p| p.id == 2 || p.id == 3);
    assert_eq!(offered_preset(&info, Some(3)), Some(3));
}

#[test]
fn returns_none_when_the_live_has_no_presets() {
    let mut info = live();
    info.presets.clear();
    assert_eq!(offered_preset(&info, Some(1)), None);
}

// ---- launch

fn saved() -> Settings {
    Settings {
        nickname: Some("saved".into()),
        fps: 30,
        relay: RelayChoice::Custom("https://relay.example.com/".into()),
        audio: AudioSettings {
            output_device: Some("dev".into()),
            applications: AudioApplications {
                mode: AudioMode::Only,
                names: vec!["firefox".into(), "game.exe".into()],
            },
        },
        recent_rooms: Vec::new(),
    }
}

fn only_firefox_and_game() -> AudioSelection {
    AudioSelection::Only(KeySet::of(vec![AppKey::new("firefox"), AppKey::new("game.exe")]))
}

#[test]
fn without_flags_the_saved_settings_apply() {
    let launch = Launch::from_settings(&saved(), &WindowArgs::default()).unwrap();
    assert_eq!(launch.nickname.as_deref(), Some("saved"));
    assert!(!launch.nickname_from_flag);
    assert_eq!(launch.fps, 30);
    assert!(matches!(launch.relay, RelaySetting::Custom(_)));
    assert_eq!(launch.audio_output.as_deref(), Some("dev"));
    assert!(launch.audio_applications == only_firefox_and_game());
}

#[test]
fn each_flag_overrides_only_its_field() {
    let args = WindowArgs { nickname: Some("flag".into()), fps: Some(120), no_relay: true };
    let launch = Launch::from_settings(&saved(), &args).unwrap();
    assert_eq!(launch.nickname.as_deref(), Some("flag"));
    assert!(launch.nickname_from_flag);
    assert_eq!(launch.fps, 120);
    assert!(matches!(launch.relay, RelaySetting::Disabled));
    assert_eq!(launch.audio_output.as_deref(), Some("dev"));
    assert!(launch.audio_applications == only_firefox_and_game());
}

#[test]
fn a_bad_saved_relay_url_is_an_error_unless_relays_are_off() {
    let mut settings = saved();
    settings.relay = RelayChoice::Custom("nope".into());
    let refused = Launch::from_settings(&settings, &WindowArgs::default());
    assert!(refused.is_err());
    assert!(refused.err().unwrap().starts_with("relay URL "));
    let args = WindowArgs { no_relay: true, ..WindowArgs::default() };
    assert!(matches!(Launch::from_settings(&settings, &args).unwrap().relay, RelaySetting::Disabled));
}

// ---- the application picker

fn source(key: &str, label: &str) -> AudioSource {
    AudioSource { key: AppKey::new(key), label: label.into() }
}

fn stored(mode: AudioMode, names: [&str; 1]) -> AudioApplications {
    AudioApplications { mode, names: names.iter().map(|n| n.to_string()).collect() }
}

fn labels(picker: &ApplicationPicker) -> Vec<(String, bool)> {
    picker.rows().into_iter().map(|row| (row.label, row.playing)).collect()
}

#[test]
fn the_draft_starts_from_the_stored_choice_in_both_modes() {
    let all = ApplicationPicker::new(Vec::new(), &stored(AudioMode::All, ["firefox"]));
    assert!(!all.only);
    assert!(all.is_chosen(&AppKey::new("firefox")));
    let only = ApplicationPicker::new(Vec::new(), &stored(AudioMode::Only, ["firefox"]));
    assert!(only.only);
}

#[test]
fn rows_list_what_is_playing_first_then_the_selected_but_absent() {
    let picker = ApplicationPicker::new(
        vec![source("spotify", "Spotify"), source("firefox", "Firefox")],
        &AudioApplications {
            mode: AudioMode::Only,
            names: vec!["game.exe".into(), "another.exe".into(), "firefox".into()],
        },
    );
    assert_eq!(
        labels(&picker),
        [
            ("Firefox".to_string(), true),
            ("Spotify".to_string(), true),
            ("another.exe".to_string(), false),
            ("game.exe".to_string(), false),
        ]
    );
}

#[test]
fn playing_rows_with_one_label_sort_by_identity() {
    let picker = ApplicationPicker::new(
        vec![source("zz", "Same"), source("aa", "Same")],
        &AudioApplications::default(),
    );
    let rows = picker.rows();
    assert_eq!(rows[0].key, AppKey::new("aa"));
    assert_eq!(rows[1].key, AppKey::new("zz"));
}

#[test]
fn a_refresh_replaces_the_list_and_keeps_the_draft() {
    let mut picker = ApplicationPicker::new(vec![source("firefox", "Firefox")], &AudioApplications::default());
    picker.only = true;
    picker.toggle(&AppKey::new("firefox"), true);
    picker.refresh(vec![source("spotify", "Spotify")]);
    assert!(picker.only);
    assert!(picker.is_chosen(&AppKey::new("firefox")));
    assert_eq!(labels(&picker), [("Spotify".to_string(), true), ("firefox".to_string(), false)]);
}

#[test]
fn what_done_applies_keeps_the_names_in_both_modes() {
    let mut picker = ApplicationPicker::new(vec![source("firefox", "Firefox")], &AudioApplications::default());
    picker.only = true;
    picker.toggle(&AppKey::new("firefox"), true);
    picker.toggle(&AppKey::new("spotify"), true);
    picker.toggle(&AppKey::new("spotify"), false);
    assert_eq!(
        picker.applied(),
        AudioApplications { mode: AudioMode::Only, names: vec!["firefox".into()] }
    );
    picker.only = false;
    assert_eq!(
        picker.applied(),
        AudioApplications { mode: AudioMode::All, names: vec!["firefox".into()] }
    );
}

#[test]
fn an_applied_choice_loads_back_as_the_same_selection() {
    let mut picker = ApplicationPicker::new(vec![source("firefox", "Firefox")], &AudioApplications::default());
    picker.only = true;
    picker.toggle(&AppKey::new("/usr/bin/firefox"), true);
    picker.toggle(&AppKey::new("spotify"), true);
    let restored = picker.applied().to_selection();
    assert!(restored == AudioSelection::Only(KeySet::of(vec![AppKey::new("spotify"), AppKey::new("firefox")])));
    let key = AppKey::new("/opt/app/bin/player");
    assert_eq!(AppKey::new(key.as_str()).as_str(), "player");
}

#[test]
fn the_summary_names_the_mode_and_counts_the_set() {
    assert_eq!(selection_summary(&AudioSelection::All), "all applications");
    assert_eq!(selection_summary(&AudioSelection::Only(KeySet::new())), "no applications selected");
    assert_eq!(
        selection_summary(&AudioSelection::Only(KeySet::of(vec![AppKey::new("a")]))),
        "1 application"
    );
    assert_eq!(
        selection_summary(&AudioSelection::Only(KeySet::of(vec![
            AppKey::new("a"),
            AppKey::new("b"),
            AppKey::new("c"),
        ]))),
        "3 applications"
    );
}

#[test]
fn codecs_and_paths_have_their_labels() {
    assert_eq!(codec_name(Codec::H264), "H.264");
    assert_eq!(codec_name(Codec::Hevc), "HEVC");
    assert_eq!(codec_name(Codec::Av1), "AV1");
    assert_eq!(path_badge(PathKind::Direct), "direct");
    assert_eq!(path_badge(PathKind::Relayed), "relayed");
    assert_eq!(path_badge(PathKind::Unknown), "path unknown");
}

// ---- ordering and the event loop

use brp::state::{ordered_members, ordered_watches, MemberView, WatchView};
use brp::wake::{earliest_repaint, remember_open, wake_plan, WakePlan};

fn member(n: u8, nickname: &str) -> MemberView {
    MemberView { id: [n; 32], nickname: nickname.into(), lives: Vec::new(), seen_ago_ms: 0, path: PathKind::Unknown }
}

#[test]
fn members_sort_by_nickname() {
    let members = vec![member(1, "zed"), member(2, "amy"), member(3, "kim")];
    let names: Vec<&str> = ordered_members(&members).iter().map(|m| m.nickname.as_str()).collect();
    assert_eq!(names, ["amy", "kim", "zed"]);
}

#[test]
fn members_with_one_nickname_sort_by_key() {
    let members = vec![member(9, "sam"), member(3, "sam"), member(5, "amy")];
    let ids: Vec<u8> = ordered_members(&members).iter().map(|m| m.id[0]).collect();
    assert_eq!(ids, [5, 3, 9]);
}

#[test]
fn watches_sort_by_publisher_then_live() {
    let watch = |n: u8, live: u32| WatchView { publisher: [n; 32], live_id: live };
    let sorted = ordered_watches(&vec![watch(2, 1), watch(1, 9), watch(2, 0), watch(1, 3)]);
    let order: Vec<(u8, u32)> = sorted.iter().map(|w| (w.publisher[0], w.live_id)).collect();
    assert_eq!(order, [(1, 3), (1, 9), (2, 0), (2, 1)]);
}

#[test]
fn the_earliest_repaint_is_kept() {
    assert_eq!(earliest_repaint(Some(5), Some(3)), Some(3));
    assert_eq!(earliest_repaint(Some(5), Some(9)), Some(5));
    assert_eq!(earliest_repaint(None, Some(9)), Some(9));
    assert_eq!(earliest_repaint(Some(5), None), Some(5));
    assert_eq!(earliest_repaint(None, None), None);
}

#[test]
fn a_due_repaint_redraws_and_a_later_one_is_waited_for() {
    assert_eq!(wake_plan(Some(10), 10), WakePlan::RedrawNow);
    assert_eq!(wake_plan(Some(11), 10), WakePlan::WaitUntil(11));
    assert_eq!(wake_plan(None, 10), WakePlan::Wait);
}

#[test]
fn a_successful_open_remembers_the_ticket_and_the_typed_nickname() {
    let mut settings = Settings::default();
    remember_open(&mut settings, "t1", 5, false, "  Bob ");
    assert_eq!(settings.recent_rooms[0].ticket, "t1");
    assert_eq!(settings.nickname.as_deref(), Some("Bob"));
    remember_open(&mut settings, "t2", 6, true, "Flagged");
    assert_eq!(settings.nickname.as_deref(), Some("Bob"), "a flag's nickname is not saved");
    remember_open(&mut settings, "t3", 7, false, "   ");
    assert_eq!(settings.nickname.as_deref(), Some("Bob"), "a blank field keeps the saved nickname");
    assert_eq!(settings.recent_rooms.len(), 3);
}

// ---- tile overlays

#[test]
fn a_watch_that_is_not_live_shows_its_title_and_phase() {
    assert_eq!(status_line("Screen 1", WatchPhase::Connecting).as_deref(), Some("Screen 1: connecting"));
    assert_eq!(status_line("Screen 1", WatchPhase::Reconnecting).as_deref(), Some("Screen 1: reconnecting"));
    assert_eq!(status_line("publisher left", WatchPhase::Ended).as_deref(), Some("publisher left: ended"));
    assert_eq!(status_line("Screen 1", WatchPhase::Live), None);
}

#[test]
fn the_stats_line_names_decoded_frames_keyframe_requests_and_the_preset() {
    assert_eq!(stats_line(1234, 0, "720p"), "decoded 1234  keyframe requests 0  preset 720p");
    assert_eq!(stats_line(0, 7, "?"), "decoded 0  keyframe requests 7  preset ?");
}

#[test]
fn grid_tiles_offer_pop_out_and_pop_outs_offer_the_toggle_and_the_way_back() {
    let (a, b) = Placement::Grid.window_buttons();
    assert_eq!((a.0, b.0), ("pop out", "fullscreen"));
    assert_eq!((a.1, b.1), (WindowAction::PopOut, WindowAction::PopOutFullscreen));
    let (a, b) = Placement::PopOut { fullscreen: false }.window_buttons();
    assert_eq!((a.0, b.0), ("fullscreen", "back to grid"));
    assert_eq!((a.1, b.1), (WindowAction::ToggleFullscreen, WindowAction::ReturnToGrid));
    let (a, _) = Placement::PopOut { fullscreen: true }.window_buttons();
    assert_eq!(a, ("windowed", WindowAction::ToggleFullscreen));
}

// ---- live rows

#[test]
fn rows_label_lives_and_presets_by_size() {
    assert_eq!(live_label("desk", 2560, 1440), "desk 2560x1440");
    let mut named = preset(2, 1920, 1080);
    named.name = "1080p".into();
    assert_eq!(preset_choice_label(&named), "1080p 1920x1080");
    assert_eq!(preset_row_label(&named), "1080p   1920x1080");
    named.name = "Source+ext".into();
    assert_eq!(preset_row_label(&named), "Source+ext 1920x1080");
    named.name = "Source1".into();
    assert_eq!(preset_row_label(&named), "Source1 1920x1080");
    assert_eq!(source_line(&live()), "2560x1440 @ 60 fps");
}

#[test]
fn a_live_without_presets_shows_its_source_rate_and_h264() {
    let mut info = live();
    info.presets[0].fps = 30;
    info.presets[0].codec = Codec::Av1;
    assert_eq!(current_fps(&info), 30);
    assert_eq!(current_codec(&info), Codec::Av1);
    info.presets.clear();
    info.source_fps = 144;
    assert_eq!(current_fps(&info), 144);
    assert_eq!(current_codec(&info), Codec::H264);
}

#[test]
fn sharing_waits_for_the_picker_and_stops_at_the_limit() {
    assert!(can_share(false, 0, 4));
    assert!(can_share(false, 3, 4));
    assert!(!can_share(false, 4, 4));
    assert!(!can_share(true, 0, 4));
}

#[test]
fn an_edit_commits_only_once_released_at_a_new_value() {
    assert_eq!(settle_edit(30, 60, true), EditOutcome::Keep);
    assert_eq!(settle_edit(60, 60, false), EditOutcome::Drop);
    assert_eq!(settle_edit(30, 60, false), EditOutcome::Commit(30));
}

#[test]
fn a_row_watches_at_the_offered_preset_and_rewatches_at_a_new_one() {
    assert_eq!(row_changes(false, false, 1, 1), vec![]);
    assert_eq!(row_changes(false, true, 1, 1), vec![WatchChange::Watch(1)]);
    assert_eq!(row_changes(true, false, 1, 1), vec![WatchChange::Unwatch]);
    assert_eq!(row_changes(true, true, 1, 2), vec![WatchChange::Watch(2)]);
    assert_eq!(row_changes(false, false, 1, 2), vec![]);
    assert_eq!(row_changes(false, true, 1, 2), vec![WatchChange::Watch(1), WatchChange::Watch(2)]);
}

#[test]
fn a_preset_reports_its_encoder_else_its_failure_else_idle() {
    let encoder = EncoderSummary { name: "nvenc".into(), subscribers: 1, frames_encoded: 900 };
    assert_eq!(
        preset_status(Some(&encoder), 4200, Some("ignored")),
        (StatusTone::Normal, "nvenc · 4200 kbps · 1 viewer · 900 frames".to_string())
    );
    let encoder = EncoderSummary { name: "x264".into(), subscribers: 3, frames_encoded: 0 };
    assert_eq!(preset_status(Some(&encoder), 0, None).1, "x264 · 0 kbps · 3 viewers · 0 frames");
    assert_eq!(preset_status(None, 0, Some("no encoder")), (StatusTone::Failed, "failed: no encoder".to_string()));
    assert_eq!(preset_status(None, 0, None), (StatusTone::Idle, "idle".to_string()));
}

#[test]
fn a_refresh_is_refused_only_where_the_byte_arithmetic_would_overflow() {
    let mut state = UiState::new();
    let both = [
        EncoderReading { live_id: 1, preset_id: 1, bytes_encoded: Some(u64::MAX) },
        EncoderReading { live_id: 1, preset_id: 2, bytes_encoded: Some(1) },
    ];
    assert!(!state.can_refresh(&both, 0, INTERVAL));
    assert!(state.can_refresh(&[reading(Some(u64::MAX / 4))], 0, INTERVAL));
    state.refresh_rates(&[reading(Some(0))], 0, INTERVAL);
    // Starting from zero, a quarter of u64 in bytes is too many bits for one interval.
    assert!(!state.can_refresh(&[reading(Some(u64::MAX / 4))], INTERVAL, INTERVAL));
    // Before the interval has passed the meter does no arithmetic at all.
    assert!(state.can_refresh(&[reading(Some(u64::MAX / 4))], INTERVAL - 1, INTERVAL));
    assert!(state.can_refresh(&[reading(Some(u64::MAX / 8))], INTERVAL, INTERVAL));
}
