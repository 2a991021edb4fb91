use std::time::Duration;

use brp::grid::dimensions;
use brp::handler::{class_value_path, class_values, desktop_entry, entry_to_write};
use brp::identity::{identity_from_file, identity_from_text, key_file_text};
use brp::repaint::{repaint_deadline, RepaintSchedule};
use brp::settings::{normalised_nickname, RecentRoom, RelayChoice, Settings, RECENT_ROOMS_MAX};
use brp::start::{abbreviate_ticket, relative_age, TICKET_HEAD, TICKET_TAIL};
use brp::ui::{fullscreen_toggle_requested, progress_text, switch_relay, RelayKind};
use brp::visibility::Visibility;

fn ms(n: u64) -> u64 {
    Duration::from_millis(n).as_nanos() as u64
}

/// A fixed monotonic reading standing in for "now", in nanoseconds.
const NOW: u64 = 5_000_000_000;

#[test]
fn the_entry_is_a_hidden_handler_for_the_scheme() {
    let entry = desktop_entry("/opt/brp/brp");
    assert!(entry.starts_with("[Desktop Entry]\n"), "{entry}");
    assert!(entry.contains("\nExec=\"/opt/brp/brp\" join %u\n"), "{entry}");
    assert!(entry.contains("\nNoDisplay=true\n"), "{entry}");
    assert!(entry.contains("\nMimeType=x-scheme-handler/brp;\n"), "{entry}");
    assert!(entry.contains("\nTerminal=false\n"), "{entry}");
}

#[test]
fn the_exec_path_is_quoted_and_escaped() {
    let entry = desktop_entry("/opt/my apps/brp$1");
    assert!(entry.contains("\nExec=\"/opt/my apps/brp\\\\$1\" join %u\n"), "{entry}");
}

#[test]
fn an_exec_path_with_quotes_and_backticks_is_escaped() {
    let entry = desktop_entry("/a\"b`c\\d");
    assert!(entry.contains("\nExec=\"/a\\\\\"b\\\\`c\\\\\\\\d\" join %u\n"), "{entry}");
}

#[test]
fn the_command_quotes_the_exe_and_passes_the_url() {
    let values = class_values(r"C:\Program Files\brp\brp.exe");
    let command = values
        .iter()
        .find(|v| v.subkey == r"shell\open\command")
        .expect("command value");
    assert_eq!(command.data, r#""C:\Program Files\brp\brp.exe" join "%1""#);
    assert!(values.iter().any(|v| v.name == Some("URL Protocol")));
}

#[test]
fn the_class_values_name_the_scheme_and_the_icon() {
    let values = class_values(r"C:\brp.exe");
    assert_eq!(values.len(), 4);
    assert_eq!(values[0].subkey, "");
    assert_eq!(values[0].name, None);
    assert_eq!(values[0].data, "URL:brp");
    assert_eq!(values[1].data, "");
    assert_eq!(values[2].subkey, "DefaultIcon");
    assert_eq!(values[2].data, r#""C:\brp.exe",0"#);
}

#[test]
fn dimensions_follow_the_ceiling_square_root_rule() {
    let dims: Vec<(usize, usize)> = (0..=9).map(dimensions).collect();
    assert_eq!(
        dims,
        [(0, 0), (1, 1), (2, 1), (2, 2), (2, 2), (3, 2), (3, 2), (3, 3), (3, 3), (3, 3)]
    );
}

#[test]
fn dimensions_of_larger_counts_stay_near_square() {
    assert_eq!(dimensions(10), (4, 3));
    assert_eq!(dimensions(16), (4, 4));
    assert_eq!(dimensions(17), (5, 4));
}

#[test]
fn only_windows_past_their_own_deadline_come_due() {
    let mut schedule = RepaintSchedule::new();
    schedule.note(1, NOW + ms(10));
    schedule.note(2, NOW + ms(1000));
    let mut due = schedule.due(NOW + ms(20));
    due.sort_unstable();
    assert_eq!(due, [1]);
    assert_eq!(schedule.next_wake(), Some(NOW + ms(1000)));
}

#[test]
fn noting_a_later_deadline_does_not_clobber_an_earlier_pending_one() {
    let mut schedule = RepaintSchedule::new();
    schedule.note(1, NOW + ms(500));
    schedule.note(1, NOW + ms(50));
    schedule.note(1, NOW + ms(900));
    assert_eq!(schedule.next_wake(), Some(NOW + ms(50)));
}

#[test]
fn due_windows_are_consumed_and_removed_windows_never_come_due() {
    let mut schedule = RepaintSchedule::new();
    schedule.note(1, NOW);
    schedule.note(2, NOW);
    schedule.remove(2);
    assert_eq!(schedule.due(NOW), [1]);
    assert!(schedule.due(NOW).is_empty(), "already consumed");
    assert_eq!(schedule.next_wake(), None);
}

#[test]
fn an_empty_schedule_has_no_wake() {
    let mut schedule = RepaintSchedule::new();
    assert_eq!(schedule.next_wake(), None);
    assert!(schedule.due(NOW).is_empty());
}

#[test]
fn a_finite_delay_becomes_a_deadline_and_no_request_becomes_none() {
    assert_eq!(
        repaint_deadline(NOW, Duration::from_millis(300).as_nanos()),
        Some(NOW + ms(300))
    );
    assert_eq!(repaint_deadline(NOW, Duration::ZERO.as_nanos()), Some(NOW));
    assert_eq!(repaint_deadline(NOW, Duration::MAX.as_nanos()), None);
}

#[test]
fn a_deadline_past_the_clock_range_is_none() {
    assert_eq!(repaint_deadline(u64::MAX - 5, 5), Some(u64::MAX));
    assert_eq!(repaint_deadline(u64::MAX - 5, 6), None);
}

#[test]
fn remember_room_moves_a_repeat_to_the_front_and_caps_the_list() {
    let mut settings = Settings::default();
    for i in 0..RECENT_ROOMS_MAX as u64 + 2 {
        settings.remember_room(&format!("t{i}"), i);
    }
    assert_eq!(settings.recent_rooms.len(), RECENT_ROOMS_MAX);
    assert_eq!(settings.recent_rooms[0].ticket, "t9");
    assert!(settings.recent_rooms.iter().all(|r| r.ticket != "t0" && r.ticket != "t1"));
    settings.remember_room("t5", 100);
    assert_eq!(settings.recent_rooms.len(), RECENT_ROOMS_MAX);
    assert_eq!(
        settings.recent_rooms[0],
        RecentRoom { ticket: "t5".into(), last_joined_unix: 100 }
    );
    assert_eq!(settings.recent_rooms.iter().filter(|r| r.ticket == "t5").count(), 1);
}

#[test]
fn remember_room_keeps_the_others_in_order() {
    let mut settings = Settings::default();
    settings.remember_room("a", 1);
    settings.remember_room("b", 2);
    settings.remember_room("c", 3);
    settings.remember_room("b", 4);
    let tickets: Vec<&str> = settings.recent_rooms.iter().map(|r| r.ticket.as_str()).collect();
    assert_eq!(tickets, ["b", "c", "a"]);
    assert_eq!(settings.recent_rooms[0].last_joined_unix, 4);
}

#[test]
fn validate_rejects_a_zero_frame_rate_and_a_bad_relay_url() {
    let mut settings = Settings::default();
    assert_eq!(settings.validate(), Ok(()));
    settings.fps = 0;
    assert!(settings.validate().unwrap_err().contains("frame rate"));
    settings.fps = 60;
    settings.relay = RelayChoice::Custom("not a url".into());
    assert!(settings.validate().unwrap_err().contains("relay URL"));
    settings.relay = RelayChoice::Custom("https://relay.example.com/".into());
    assert_eq!(settings.validate(), Ok(()));
}

#[test]
fn normalised_nickname_drops_whitespace_and_treats_blank_as_none() {
    assert_eq!(normalised_nickname(""), None);
    assert_eq!(normalised_nickname("   "), None);
    assert_eq!(normalised_nickname("  John Smith "), Some("John Smith".to_string()));
}

#[test]
fn normalised_nickname_trims_tabs_and_newlines() {
    assert_eq!(normalised_nickname("\t\n"), None);
    assert_eq!(normalised_nickname("\tbob\n"), Some("bob".to_string()));
}

#[test]
fn a_saved_nickname_is_saved_again_unchanged() {
    for text in ["  John Smith ", "\u{3000}Ann\u{a0}", "x", " a b "] {
        let once = normalised_nickname(text).unwrap();
        assert_eq!(normalised_nickname(&once), Some(once.clone()));
    }
}

#[test]
fn f11_toggles_both_ways_and_escape_only_leaves_fullscreen() {
    assert!(fullscreen_toggle_requested(true, false, false, false));
    assert!(fullscreen_toggle_requested(true, false, true, false));
    assert!(fullscreen_toggle_requested(false, true, true, false));
    assert!(!fullscreen_toggle_requested(false, true, false, false));
    assert!(!fullscreen_toggle_requested(false, false, true, false));
}

#[test]
fn escape_is_ignored_while_a_popup_is_open_but_f11_still_toggles() {
    assert!(!fullscreen_toggle_requested(false, true, true, true));
    assert!(fullscreen_toggle_requested(true, false, true, true));
}

#[test]
fn switching_relay_kinds_keeps_a_typed_url_only_while_custom() {
    let typed = RelayChoice::Custom("https://r.example/".into());
    assert_eq!(switch_relay(&typed, RelayKind::Custom), typed);
    assert_eq!(switch_relay(&typed, RelayKind::Disabled), RelayChoice::Disabled);
    assert_eq!(
        switch_relay(&RelayChoice::Default, RelayKind::Custom),
        RelayChoice::Custom(String::new())
    );
    assert_eq!(RelayKind::of(&typed), RelayKind::Custom);
}

#[test]
fn switching_to_default_drops_the_url() {
    let typed = RelayChoice::Custom("https://r.example/".into());
    assert_eq!(switch_relay(&typed, RelayKind::Default), RelayChoice::Default);
    assert_eq!(RelayKind::of(&RelayChoice::Disabled), RelayKind::Disabled);
    assert_eq!(RelayKind::of(&RelayChoice::Default), RelayKind::Default);
}

#[test]
fn relative_age_rounds_down_through_the_units() {
    assert_eq!(relative_age(1_000, 1_030), "just now");
    assert_eq!(relative_age(1_000, 1_000 + 5 * 60), "5 min ago");
    assert_eq!(relative_age(1_000, 1_000 + 3 * 3_600 + 59), "3 h ago");
    assert_eq!(relative_age(1_000, 1_000 + 2 * 86_400), "2 d ago");
    assert_eq!(relative_age(2_000, 1_000), "just now");
}

#[test]
fn relative_age_at_the_unit_boundaries() {
    assert_eq!(relative_age(0, 59), "just now");
    assert_eq!(relative_age(0, 60), "1 min ago");
    assert_eq!(relative_age(0, 3_599), "59 min ago");
    assert_eq!(relative_age(0, 3_600), "1 h ago");
    assert_eq!(relative_age(0, 86_399), "23 h ago");
    assert_eq!(relative_age(0, 86_400), "1 d ago");
}

#[test]
fn short_tickets_are_shown_whole_and_long_ones_keep_both_ends() {
    assert_eq!(abbreviate_ticket("brpshort"), "brpshort");
    let long = "brp".to_string() + &"x".repeat(40) + "tail42";
    let shown = abbreviate_ticket(&long);
    assert!(shown.starts_with("brpxxxxx"), "{shown}");
    assert!(shown.ends_with("tail42"), "{shown}");
    assert!(shown.contains('…'), "{shown}");
    assert_eq!(shown.chars().count(), TICKET_HEAD + TICKET_TAIL + 1);
}

#[test]
fn a_ticket_one_past_the_limit_is_abbreviated() {
    let exact = "a".repeat(TICKET_HEAD + TICKET_TAIL + 1);
    assert_eq!(abbreviate_ticket(&exact), exact);
    let over = "b".repeat(TICKET_HEAD + TICKET_TAIL + 2);
    assert_eq!(abbreviate_ticket(&over).chars().count(), TICKET_HEAD + TICKET_TAIL + 1);
}

#[test]
fn progress_text_truncates_to_whole_megabytes() {
    assert_eq!(progress_text(12_999_999, Some(41_000_000)), "downloading 12 MB / 41 MB");
    assert_eq!(progress_text(999_999, None), "downloading 0 MB");
}

#[test]
fn progress_text_of_large_counts() {
    assert_eq!(progress_text(u64::MAX, Some(u64::MAX)), "downloading 18446744073709 MB / 18446744073709 MB");
}

#[test]
fn a_fresh_window_is_not_suspended() {
    assert!(!Visibility::new().is_suspended());
}

#[test]
fn occlusion_alone_suspends_and_lifting_it_reports_restored() {
    let mut v = Visibility::new();
    assert!(!v.set_occluded(true), "becoming suspended is not a restore");
    assert!(v.is_suspended());
    assert!(v.set_occluded(false), "no longer occluded restores it");
    assert!(!v.is_suspended());
}

#[test]
fn a_zero_sized_window_is_suspended_regardless_of_occlusion() {
    let mut v = Visibility::new();
    v.set_size(0, 480);
    assert!(v.is_suspended());
    assert!(v.set_size(1280, 720));
    assert!(!v.is_suspended());
}

#[test]
fn unknown_minimized_state_is_treated_as_visible() {
    let mut v = Visibility::new();
    assert!(!v.set_minimized(None));
    assert!(!v.is_suspended());
}

#[test]
fn restoring_requires_every_suspending_flag_to_clear() {
    let mut v = Visibility::new();
    v.set_occluded(true);
    v.set_size(0, 0);
    assert!(!v.set_occluded(false));
    assert!(v.is_suspended());
    assert!(v.set_size(800, 600));
    assert!(!v.is_suspended());
}

#[test]
fn minimized_alone_suspends_a_visible_unoccluded_window() {
    let mut v = Visibility::new();
    assert!(!v.set_minimized(Some(true)));
    assert!(v.is_suspended());
    assert!(v.set_minimized(Some(false)));
    assert!(!v.is_suspended());
}

#[test]
fn a_zero_height_alone_suspends() {
    let mut v = Visibility::new();
    assert!(!v.set_size(640, 0));
    assert!(v.is_suspended());
    assert!(!v.set_size(640, 0), "still suspended, nothing restored");
}

// ---- the start screen

use brp::link::{bare_ticket, share_link};
use brp::selection::{AppKey, AudioSelection, KeySet, Platform};
use brp::settings::{AudioApplications, AudioMode, RelaySetting, SettingsStore};
use brp::start::{Intent, StartAction, StartState};
use brp::ui::{device_label, SettingsDialog};
use brp::output::OutputDevice;

const TICKET: &str = "brpaebqdmzxq3ecpmeyq7qkq2kl6gmqlytdw7n4w2kmvmwo5pvcfb4aa";

fn parsed(text: &str) -> Result<String, String> {
    if text.starts_with("brp") && text.len() > 8 {
        Ok(text.to_string())
    } else {
        Err("unexpected character".to_string())
    }
}

#[test]
fn create_yields_the_create_intent_and_marks_connecting() {
    let mut state = StartState::new("alice".into());
    assert_eq!(state.submit(StartAction::Create, parsed(&state.ticket_text())), Some(Intent::Create));
    assert!(state.connecting);
    assert!(state.error.is_empty());
}

#[test]
fn join_with_garbage_shows_an_error_and_stays_on_the_form() {
    let mut state = StartState::new("alice".into());
    state.ticket = "not a ticket".into();
    let outcome = parsed(&state.ticket_text());
    assert_eq!(state.submit(StartAction::Join, outcome), None);
    assert!(!state.connecting);
    assert!(state.error.starts_with("invalid ticket"), "{}", state.error);
}

#[test]
fn join_with_a_valid_ticket_yields_the_join_intent() {
    let mut state = StartState::new("alice".into());
    state.ticket = format!("  {TICKET}\n");
    assert_eq!(state.ticket_text(), TICKET);
    let outcome = parsed(&state.ticket_text());
    assert_eq!(state.submit(StartAction::Join, outcome), Some(Intent::Join(TICKET.to_string())));
    assert!(state.connecting);
}

#[test]
fn nothing_is_accepted_while_connecting() {
    let mut state = StartState::new("alice".into());
    state.submit(StartAction::Create, parsed(""));
    assert_eq!(state.submit(StartAction::Create, parsed("")), None);
    assert_eq!(state.submit(StartAction::Join, parsed(TICKET)), None);
}

#[test]
fn open_settings_is_never_an_intent_and_leaves_the_form_alone() {
    let mut state = StartState::new("alice".into());
    assert_eq!(state.submit(StartAction::OpenSettings, parsed(TICKET)), None);
    assert!(!state.connecting);
}

#[test]
fn a_failure_returns_to_the_form_with_the_message() {
    let mut state = StartState::new("alice".into());
    state.submit(StartAction::Create, parsed(""));
    state.failed("no room member answered within the join timeout".into());
    assert!(!state.connecting);
    assert_eq!(state.error, "no room member answered within the join timeout");
    assert_eq!(state.submit(StartAction::Create, parsed("")), Some(Intent::Create));
}

// ---- join links: what the ticket parser is handed

#[test]
fn every_link_form_parses_to_the_same_ticket() {
    for input in [
        TICKET.to_string(),
        format!("brp://join/{TICKET}"),
        format!("brp://join/{TICKET}/"),
        format!("https://gtkacz.github.io/openstream/join/#{TICKET}"),
        format!("https://gtkacz.github.io/openstream/join#{TICKET}"),
    ] {
        assert_eq!(bare_ticket(&input), TICKET, "{input}");
    }
    assert_eq!(bare_ticket(format!("  {TICKET}\n").trim()), TICKET);
}

#[test]
fn links_without_a_ticket_fail_like_a_bad_ticket() {
    for input in [
        "",
        "brp://join/",
        "https://gtkacz.github.io/openstream/join/",
        "https://gtkacz.github.io/openstream/join/#",
    ] {
        assert_eq!(bare_ticket(input), "", "{input}");
        assert!(parsed(&bare_ticket(input)).is_err());
    }
    for input in ["not a ticket", "https://example.com/#brpaaaa"] {
        assert_eq!(bare_ticket(input), input, "foreign text is handed on as is");
        assert!(parsed(&bare_ticket(input)).is_err());
    }
}

#[test]
fn the_share_link_round_trips_through_the_parser() {
    let link = share_link(TICKET);
    assert!(link.starts_with("https://gtkacz.github.io/openstream/join/#brp"), "{link}");
    assert_eq!(bare_ticket(&link), TICKET);
}

#[test]
fn a_share_link_keeps_a_ticket_with_a_hash_whole() {
    assert_eq!(bare_ticket(&share_link("a#b")), "a#b");
    assert_eq!(bare_ticket("brp://join/abc///"), "abc");
}

// ---- the settings dialog

#[test]
fn the_device_label_names_listed_devices_and_flags_absent_ones() {
    let devices = vec![OutputDevice { id: "host:abc".into(), name: "Speakers".into() }];
    assert_eq!(device_label(None, &devices), "System default");
    assert_eq!(device_label(Some("host:abc"), &devices), "Speakers");
    assert_eq!(device_label(Some("host:gone"), &devices), "host:gone (not present)");
}

#[test]
fn opening_takes_a_fresh_draft_and_clears_old_errors() {
    let mut dialog = SettingsDialog { error: "old".into(), ..Default::default() };
    let settings = Settings { fps: 24, ..Settings::default() };
    dialog.open_with(&settings, Err("no host".into()));
    assert!(dialog.open);
    assert_eq!(dialog.draft, settings);
    assert!(dialog.error.is_empty());
    assert_eq!(dialog.devices_error.as_deref(), Some("no host"));
    assert!(dialog.devices.is_empty());
}

// ---- settings conversions

#[test]
fn relay_choice_maps_onto_the_transport_setting() {
    assert!(matches!(RelayChoice::Default.to_relay_setting().unwrap(), RelaySetting::Default));
    assert!(matches!(RelayChoice::Disabled.to_relay_setting().unwrap(), RelaySetting::Disabled));
    let url: iroh_base::RelayUrl = "https://relay.example.com/".parse().unwrap();
    match RelayChoice::Custom("https://relay.example.com/".into()).to_relay_setting().unwrap() {
        RelaySetting::Custom(parsed) => {
            assert_eq!(parsed.url, url);
            assert_eq!(parsed.text, "https://relay.example.com/");
        }
        other => panic!("expected a custom relay, got {other:?}"),
    }
    assert!(RelayChoice::Custom("nope".into()).to_relay_setting().is_err());
    let refused = RelayChoice::Custom("no\"pe".into()).to_relay_setting().err().unwrap();
    assert!(refused.starts_with("relay URL \"no\\\"pe\": "), "{refused}");
    assert!(refused.len() > "relay URL \"no\\\"pe\": ".len(), "{refused}");
}

#[test]
fn a_custom_relay_carries_the_url_as_the_parser_writes_it() {
    match RelayChoice::Custom("https://Relay.Example.com".into()).to_relay_setting().unwrap() {
        RelaySetting::Custom(custom) => {
            assert_eq!(custom.text, "https://relay.example.com/");
            assert_eq!(custom.url.as_str(), custom.text);
        }
        other => panic!("expected a custom relay, got {other:?}"),
    }
}

#[test]
fn the_mode_selects_all_or_only_the_named_applications() {
    assert!(AudioApplications::default().to_selection() == AudioSelection::All);
    let only = AudioApplications { mode: AudioMode::Only, names: vec!["firefox".into(), "game.exe".into()] };
    assert!(
        only.to_selection()
            == AudioSelection::Only(KeySet::of(vec![AppKey::new("firefox"), AppKey::new("game.exe")]))
    );
    let kept = AudioApplications { mode: AudioMode::All, names: vec!["firefox".into()] };
    assert!(kept.to_selection() == AudioSelection::All);
}

#[test]
fn a_path_in_a_stored_name_is_cut_to_its_basename() {
    let odd = AudioApplications { mode: AudioMode::Only, names: vec!["/usr/lib/firefox/firefox".into()] };
    assert!(odd.to_selection() == AudioSelection::Only(KeySet::of(vec![AppKey::new("firefox")])));
}

#[test]
fn a_failed_load_blocks_implicit_saves_until_the_error_is_cleared() {
    let mut file = String::from("this = = is not toml");
    let mut store = SettingsStore::load_at("settings.toml".into(), Err("settings.toml: expected a value".into()));
    assert!(store.load_error.is_some());
    store.settings.remember_room("t", 1);
    let write = |settings: &Settings, _path: &String| -> Result<(), String> {
        let _ = settings;
        Ok(())
    };
    assert!(!store.save_unless_load_failed(write).unwrap());
    assert_eq!(file, "this = = is not toml");
    assert!(store.load_error.is_some());
    store.load_error = None;
    let saved = store.save_unless_load_failed(|settings: &Settings, _path: &String| {
        file = format!("fps = {}", settings.fps);
        Ok(())
    });
    assert!(saved.unwrap());
    assert_eq!(file, "fps = 60");
}

#[test]
fn a_failed_write_keeps_the_load_error() {
    let mut store = SettingsStore::load_at("settings.toml".into(), Err("unreadable".into()));
    let refused = store.save(|_: &Settings, _: &String| Err("disk full".to_string()));
    assert_eq!(refused, Err("disk full".to_string()));
    assert_eq!(store.load_error.as_deref(), Some("unreadable"));
    assert!(store.save(|_: &Settings, _: &String| Ok(())).is_ok());
    assert_eq!(store.load_error, None);
}

#[test]
fn install_writes_once_and_again_when_the_exe_moves() {
    let first = entry_to_write(None, "/a/brp").expect("a missing file is written");
    assert_eq!(first, desktop_entry("/a/brp"));
    assert!(entry_to_write(Some(&first), "/a/brp").is_none(), "unchanged, not rewritten");
    let moved = entry_to_write(Some(&first), "/b/brp").expect("a moved binary rewrites");
    assert_eq!(moved, desktop_entry("/b/brp"));
}

#[test]
fn class_values_live_under_the_class_key() {
    assert_eq!(class_value_path(""), r"Software\Classes\brp");
    assert_eq!(class_value_path(r"shell\open\command"), r"Software\Classes\brp\shell\open\command");
}

// ---- identity

#[test]
fn a_key_is_written_as_lowercase_hex_and_reads_back_as_the_same_key() {
    let mut bytes = [0u8; 32];
    for (i, b) in bytes.iter_mut().enumerate() {
        *b = (i as u8).wrapping_mul(37).wrapping_add(11);
    }
    bytes[0] = 0xab;
    bytes[31] = 0x0f;
    let text = key_file_text(&bytes);
    assert_eq!(text.len(), 64);
    assert!(text.starts_with("ab"));
    assert!(text.ends_with("0f"));
    assert!(text.chars().all(|c| c.is_ascii_digit() || ('a'..='f').contains(&c)));
    let key = identity_from_text("identity.key", &format!("{text}\n")).unwrap();
    assert_eq!(key, bytes);
    let again = identity_from_file("identity.key", Some(&text)).unwrap().unwrap();
    assert_eq!(again, bytes);
}

#[test]
fn a_missing_key_file_asks_for_a_new_key_and_a_corrupt_one_is_reported() {
    assert!(identity_from_file("/k/identity.key", None).unwrap().is_none());
    let error = identity_from_file("/k/identity.key", Some("not hex")).unwrap_err();
    assert!(error.starts_with("/k/identity.key is not a valid key: "), "{error}");
    assert!(identity_from_text("/k/identity.key", "").is_err());
}

#[test]
fn on_windows_a_stored_name_matches_whatever_its_case_and_separator() {
    let stored = AudioApplications { mode: AudioMode::Only, names: vec!["C:\\Games\\Game.EXE".into(), "/usr/bin/Firefox".into()] };
    let windows = stored.to_selection_on(Platform::Windows);
    assert!(windows == AudioSelection::Only(KeySet::of(vec![AppKey::new_windows("game.exe"), AppKey::new_windows("firefox")])));
    let posix = stored.to_selection();
    assert!(posix == AudioSelection::Only(KeySet::of(vec![AppKey::new("C:\\Games\\Game.EXE"), AppKey::new("Firefox")])));
}

#[test]
fn suspension_follows_the_last_value_of_each_signal() {
    let mut v = Visibility::new();
    v.set_occluded(true);
    v.set_size(0, 5);
    v.set_occluded(false);
    assert!(v.is_suspended(), "the last size still has a zero side");
    assert!(v.set_size(5, 5), "the last flag lifted restores");
    v.set_minimized(Some(true));
    assert!(v.is_suspended());
    v.set_minimized(None);
    assert!(!v.is_suspended(), "an unreported minimized state reads as not minimized");
}
