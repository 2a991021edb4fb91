use std::collections::BTreeMap;

use brp::backlog::{earliest, SourceClock};
use brp::idmap::IdMap;
use brp::graph::{Client, Graph, Input, LinkPlan, Node, NodeVerdict, Port, APP_OUTPUT_CLASS, OWN_STREAM_NAME};
use brp::process_tree::{application_root, ProcessInfo};
use brp::selection::{AppKey, AudioSelection, AudioSource, KeySet};

const OWN_PID: u32 = 4242;
const OWN_BINARY: &str = "brp";

fn graph(selection: AudioSelection) -> Graph {
    Graph::new(OWN_PID, AppKey::new(OWN_BINARY), selection)
}

fn only(binaries: [&str; 1]) -> AudioSelection {
    AudioSelection::Only(KeySet::of(binaries.iter().map(|b| AppKey::new(b)).collect()))
}

fn client(pid: u32) -> Client {
    Client { pid: Some(pid), ..Default::default() }
}

fn app(pid: u32, binary: &str, name: &str) -> Client {
    Client { pid: Some(pid), key: Some(AppKey::new(binary)), label: Some(name.into()) }
}

fn node(id: u32, client: Option<u32>) -> Node {
    Node { id, media_class: APP_OUTPUT_CLASS.into(), name: None, client }
}

fn port(id: u32, node: u32, channel: &str) -> Port {
    Port { id, node, direction_out: true, channel: channel.into() }
}

#[test]
fn stereo_ports_of_foreign_apps_are_linked_by_channel() {
    let mut graph = graph(AudioSelection::All);
    graph.add_client(50, client(1000));
    assert_eq!(graph.add_node(node(10, Some(50))), NodeVerdict::Linked);
    assert_eq!(
        graph.add_port(port(11, 10, "FL")),
        Some(LinkPlan { port: 11, node: 10, input: Input::Left })
    );
    assert_eq!(
        graph.add_port(port(12, 10, "FR")),
        Some(LinkPlan { port: 12, node: 10, input: Input::Right })
    );
}

#[test]
fn brps_own_nodes_and_non_application_nodes_are_ignored() {
    let mut graph = graph(AudioSelection::All);
    graph.add_client(50, client(OWN_PID));
    assert_eq!(graph.add_node(node(10, Some(50))), NodeVerdict::Ignored);
    assert_eq!(graph.add_port(port(11, 10, "FL")), None);
    let mut sink = node(20, None);
    sink.media_class = "Audio/Sink".into();
    assert_eq!(graph.add_node(sink), NodeVerdict::Ignored);
    assert_eq!(graph.add_port(port(21, 20, "FL")), None);
}

#[test]
fn a_mono_port_feeds_both_inputs_and_input_ports_are_skipped() {
    let mut graph = Graph::new(1, AppKey::new(OWN_BINARY), AudioSelection::All);
    graph.add_client(50, client(999));
    graph.add_node(node(10, Some(50)));
    assert_eq!(
        graph.add_port(port(11, 10, "MONO")),
        Some(LinkPlan { port: 11, node: 10, input: Input::Both })
    );
    let mut input = port(12, 10, "FL");
    input.direction_out = false;
    assert_eq!(graph.add_port(input), None);
    assert_eq!(graph.add_port(port(13, 10, "RL")), None, "surround extras are not linked");
}

#[test]
fn a_port_seen_before_its_node_is_linked_when_the_node_arrives() {
    let mut graph = Graph::new(1, AppKey::new(OWN_BINARY), AudioSelection::All);
    graph.add_client(50, client(999));
    assert_eq!(graph.add_port(port(11, 10, "FL")), None);
    assert_eq!(graph.add_node(node(10, Some(50))), NodeVerdict::Linked);
    assert_eq!(
        graph.pending_links(10),
        vec![LinkPlan { port: 11, node: 10, input: Input::Left }]
    );
    graph.remove(10);
    assert!(graph.pending_links(10).is_empty());
}

#[test]
fn a_node_whose_client_arrived_first_with_our_pid_is_own() {
    let mut graph = graph(AudioSelection::All);
    graph.add_client(50, client(OWN_PID));
    let mut own = node(10, Some(50));
    own.media_class = "Stream/Input/Audio".into();
    own.name = Some(OWN_STREAM_NAME.into());
    assert_eq!(graph.add_node(own), NodeVerdict::Own);
}

#[test]
fn a_node_whose_client_is_unknown_is_unresolved() {
    let mut graph = graph(AudioSelection::All);
    assert_eq!(graph.add_node(node(10, Some(99))), NodeVerdict::Unresolved);
    assert_eq!(graph.add_port(port(11, 10, "FL")), None, "an unresolved node is not linked");
}

#[test]
fn a_node_named_like_ours_from_a_foreign_pid_is_linked_as_foreign() {
    let mut graph = graph(AudioSelection::All);
    graph.add_client(50, client(999));
    let mut foreign = node(10, Some(50));
    foreign.name = Some(OWN_STREAM_NAME.into());
    assert_eq!(graph.add_node(foreign), NodeVerdict::Linked);
}

#[test]
fn only_the_selected_binary_is_linked() {
    let mut graph = graph(only(["firefox"]));
    graph.add_client(50, app(1000, "firefox", "Firefox"));
    graph.add_client(51, app(1001, "spotify", "Spotify"));
    assert_eq!(graph.add_node(node(10, Some(50))), NodeVerdict::Linked);
    assert_eq!(graph.add_node(node(20, Some(51))), NodeVerdict::NotSelected);
    assert_eq!(graph.add_port(port(21, 20, "FL")), None, "an unselected node is not linked");
}

#[test]
fn an_unresolvable_binary_links_under_all_and_is_not_selected_under_only() {
    let mut all = graph(AudioSelection::All);
    all.add_client(50, client(1000));
    assert_eq!(all.add_node(node(10, Some(50))), NodeVerdict::Linked);

    let mut restricted = graph(only(["firefox"]));
    restricted.add_client(50, client(1000));
    assert_eq!(
        restricted.add_node(node(10, Some(50))),
        NodeVerdict::NotSelected,
        "no identity means not selected: fail closed"
    );
}

#[test]
fn our_own_pid_and_our_own_binary_are_excluded_in_both_modes() {
    for selection in [AudioSelection::All, only([OWN_BINARY])] {
        let mut graph = graph(selection);
        graph.add_client(50, app(OWN_PID, OWN_BINARY, "brp"));
        graph.add_client(51, app(9999, OWN_BINARY, "brp"));
        graph.add_client(52, Client { pid: None, key: Some(AppKey::new(OWN_BINARY)), label: None });
        assert_eq!(graph.add_node(node(10, Some(50))), NodeVerdict::Ignored, "our own playback");
        assert_eq!(
            graph.add_node(node(20, Some(51))),
            NodeVerdict::Ignored,
            "a second brp instance is an echo path, not an application"
        );
        assert_eq!(
            graph.add_node(node(30, Some(52))),
            NodeVerdict::Ignored,
            "excluded by name even without a resolvable pid"
        );
        assert!(graph.sources().is_empty(), "brp is never listed");
    }
}

#[test]
fn nodes_of_one_binary_collapse_into_one_source() {
    let mut graph = graph(AudioSelection::All);
    graph.add_client(50, app(1000, "firefox", "Firefox"));
    graph.add_client(51, app(1001, "firefox", "Firefox"));
    graph.add_client(52, app(1002, "spotify", ""));
    graph.add_client(53, client(1003));
    for (id, client) in [(10, 50), (11, 50), (12, 51), (20, 52), (30, 53)] {
        graph.add_node(node(id, Some(client)));
    }
    assert_eq!(
        graph.sources(),
        vec![
            AudioSource { key: AppKey::new("firefox"), label: "Firefox".into() },
            AudioSource { key: AppKey::new("spotify"), label: "spotify".into() },
        ],
        "three Firefox streams are one row, an empty name falls back to the key, and a stream \
         with no identity cannot be listed"
    );
}

#[test]
fn an_unselected_node_is_still_listed() {
    let mut graph = graph(AudioSelection::All);
    graph.add_client(50, app(1000, "spotify", "Spotify"));
    graph.add_node(node(10, Some(50)));
    assert_eq!(graph.sources().len(), 1, "the list reports what is audible");
}

#[test]
fn a_later_label_for_an_identity_does_not_replace_the_first() {
    let mut graph = graph(AudioSelection::All);
    graph.add_client(50, app(1000, "firefox", "Firefox"));
    graph.add_client(51, app(1001, "firefox", "Firefox Nightly"));
    graph.add_node(node(12, Some(51)));
    graph.add_node(node(11, Some(50)));
    assert_eq!(
        graph.sources(),
        vec![AudioSource { key: AppKey::new("firefox"), label: "Firefox".into() }]
    );
}

#[test]
fn removing_a_node_forgets_its_ports_and_its_id_as_a_client() {
    let mut graph = graph(AudioSelection::All);
    graph.add_client(10, client(1000));
    graph.add_client(50, client(1001));
    graph.add_node(node(10, Some(50)));
    graph.add_port(port(11, 10, "FL"));
    graph.remove(10);
    assert!(graph.pending_links(10).is_empty());
    assert_eq!(graph.add_node(node(20, Some(10))), NodeVerdict::Unresolved);
}

fn info(parent: u32, name: &str) -> ProcessInfo {
    ProcessInfo { parent, key: AppKey::new_windows(name) }
}

fn processes(entries: Vec<(u32, ProcessInfo)>) -> BTreeMap<u32, ProcessInfo> {
    entries.into_iter().collect()
}

#[test]
fn renderer_collapses_onto_the_browser_root() {
    let processes = processes(vec![
        (10, info(1, "browser.exe")),
        (11, info(10, "browser.exe")),
        (12, info(11, "browser.exe")),
    ]);
    assert_eq!(application_root(12, &AppKey::new_windows("browser.exe"), &processes), Some(10));
}

#[test]
fn independent_instances_keep_independent_roots() {
    let processes = processes(vec![
        (10, info(1, "browser.exe")),
        (11, info(10, "browser.exe")),
        (20, info(1, "browser.exe")),
        (21, info(20, "browser.exe")),
    ]);
    assert_eq!(application_root(11, &AppKey::new_windows("browser.exe"), &processes), Some(10));
    assert_eq!(application_root(21, &AppKey::new_windows("browser.exe"), &processes), Some(20));
}

#[test]
fn differently_named_launcher_stops_the_walk() {
    let processes = processes(vec![
        (5, info(1, "launcher.exe")),
        (10, info(5, "game.exe")),
        (11, info(10, "game.exe")),
    ]);
    assert_eq!(application_root(11, &AppKey::new_windows("game.exe"), &processes), Some(10));
}

#[test]
fn missing_or_mismatched_process_fails_closed() {
    let processes = processes(vec![(10, info(1, "game.exe"))]);
    assert_eq!(application_root(99, &AppKey::new_windows("game.exe"), &processes), None);
    assert_eq!(application_root(10, &AppKey::new_windows("chat.exe"), &processes), None);
}

#[test]
fn a_parent_cycle_stops_at_the_first_repeat() {
    let processes = processes(vec![(10, info(11, "game.exe")), (11, info(10, "game.exe"))]);
    assert_eq!(application_root(10, &AppKey::new_windows("game.exe"), &processes), Some(11));
}

#[test]
fn a_key_is_the_basename_of_whatever_it_is_given() {
    assert_eq!(AppKey::new("firefox").as_str(), "firefox");
    assert_eq!(AppKey::new("/usr/bin/firefox").as_str(), "firefox");
    assert_eq!(AppKey::new("").as_str(), "");
}

#[test]
fn linux_matches_a_basename_exactly() {
    assert_eq!(AppKey::new("Firefox").as_str(), "Firefox");
    assert_ne!(AppKey::new("Firefox"), AppKey::new("firefox"));
}

#[test]
fn windows_matches_case_insensitively_and_takes_either_separator() {
    assert_eq!(AppKey::new_windows("Game.exe"), AppKey::new_windows("GAME.EXE"));
    assert_eq!(AppKey::new_windows(r"C:\Games\Game.exe"), AppKey::new_windows("game.exe"));
    assert_eq!(AppKey::new_windows("C:/Games/Game.exe"), AppKey::new_windows("game.exe"));
}

#[test]
fn all_is_the_default_and_admits_everything_including_an_unknown_identity() {
    let all = AudioSelection::default();
    assert_eq!(all, AudioSelection::All);
    assert!(all.admits(Some(&AppKey::new("firefox"))));
    assert!(all.admits(None), "under All a key is not load-bearing");
}

#[test]
fn only_admits_its_members_and_never_an_unknown_identity() {
    let only = AudioSelection::Only(KeySet::of(vec![AppKey::new("firefox")]));
    assert!(only.admits(Some(&AppKey::new("firefox"))));
    assert!(!only.admits(Some(&AppKey::new("spotify"))));
    assert!(!only.admits(None), "an unresolved identity fails closed under Only");
}

#[test]
fn an_empty_only_set_is_silence() {
    let nothing = AudioSelection::Only(KeySet::new());
    assert!(!nothing.admits(Some(&AppKey::new("firefox"))));
    assert!(!nothing.admits(None));
}

#[test]
fn a_key_set_holds_each_key_once_in_text_order() {
    let set = KeySet::of(vec![AppKey::new("spotify"), AppKey::new("firefox"), AppKey::new("spotify")]);
    assert_eq!(set.len(), 2);
    assert_eq!(set.get(0).as_str(), "firefox");
    assert_eq!(set.get(1).as_str(), "spotify");
}

// ---- Windows sessions past the platform calls

use brp::sessions::{collapse_sources, selected_roots, session_for, SessionProcess};

fn session(pid: u32, key: &str, label: &str) -> SessionProcess {
    SessionProcess { pid, key: AppKey::new(key), label: label.into() }
}

#[test]
fn sessions_of_the_idle_process_this_process_and_brp_are_skipped() {
    let own = AppKey::new("brp.exe");
    assert!(session_for(0, 10, AppKey::new("a.exe"), &own, "A").is_none());
    assert!(session_for(10, 10, AppKey::new("a.exe"), &own, "A").is_none());
    assert!(session_for(11, 10, AppKey::new("brp.exe"), &own, "brp").is_none());
    let kept = session_for(11, 10, AppKey::new("a.exe"), &own, "Player").unwrap();
    assert_eq!((kept.pid, kept.key.as_str(), kept.label.as_str()), (11, "a.exe", "Player"));
}

#[test]
fn a_blank_session_label_falls_back_to_the_identity() {
    let own = AppKey::new("brp.exe");
    let kept = session_for(11, 10, AppKey::new("a.exe"), &own, "  \t").unwrap();
    assert_eq!(kept.label, "a.exe");
}

#[test]
fn sessions_collapse_into_one_row_per_executable_in_identity_order() {
    let rows = collapse_sources(vec![
        session(3, "zoom.exe", "zoom.exe"),
        session(1, "chrome.exe", "Google Chrome"),
        session(2, "chrome.exe", "Chrome renderer"),
        session(4, "zoom.exe", "Zoom Meetings"),
        session(5, "zoom.exe", "Zoom again"),
    ]);
    let shown: Vec<(&str, &str)> = rows.iter().map(|r| (r.key.as_str(), r.label.as_str())).collect();
    assert_eq!(shown, [("chrome.exe", "Google Chrome"), ("zoom.exe", "Zoom Meetings")]);
}

#[test]
fn no_sessions_collapse_to_no_rows() {
    assert!(collapse_sources(Vec::new()).is_empty());
}

#[test]
fn selected_sessions_capture_their_roots_once() {
    let procs = processes(vec![
        (1, info(0, "explorer.exe")),
        (10, info(1, "chrome.exe")),
        (11, info(10, "chrome.exe")),
        (12, info(10, "chrome.exe")),
        (20, info(1, "game.exe")),
    ]);
    let sessions = vec![session(11, "chrome.exe", "c"), session(12, "chrome.exe", "c"), session(20, "game.exe", "g")];
    let chosen = KeySet::of(vec![AppKey::new("chrome.exe")]);
    assert_eq!(selected_roots(&sessions, &chosen, &procs), [10]);
    let both = KeySet::of(vec![AppKey::new("chrome.exe"), AppKey::new("game.exe")]);
    assert_eq!(selected_roots(&sessions, &both, &procs), [10, 20]);
    assert!(selected_roots(&sessions, &KeySet::new(), &procs).is_empty());
}

#[test]
fn a_session_whose_process_is_gone_captures_nothing() {
    let procs = processes(vec![(1, info(0, "explorer.exe"))]);
    let sessions = vec![session(50, "chrome.exe", "c")];
    let chosen = KeySet::of(vec![AppKey::new("chrome.exe")]);
    assert!(selected_roots(&sessions, &chosen, &procs).is_empty());
}

// ---- PipeWire capture session decisions

use brp::capture::{CaptureLinks, LinkRequest};
use brp::reconcile::{plan_reconcile, record_start};

fn request(node: u32, port: u32, stream: u32, input: u32) -> LinkRequest {
    LinkRequest { output_node: node, output_port: port, input_node: stream, input_port: input }
}

fn own_stream_node(id: u32, client: u32) -> Node {
    Node { id, media_class: "Stream/Input/Audio".into(), name: Some(OWN_STREAM_NAME.into()), client: Some(client) }
}

fn in_port(id: u32, node: u32, channel: &str) -> Port {
    Port { id, node, direction_out: false, channel: channel.into() }
}

#[test]
fn plans_wait_for_our_stream_and_both_inputs_then_link() {
    let mut links = CaptureLinks::new(graph(AudioSelection::All));
    links.on_client(1, app(100, "firefox", "Firefox"));
    assert!(links.on_port(port(20, 10, "FL")).is_empty(), "its node is not known yet");
    let (verdict, now) = links.on_node(node(10, Some(1)));
    assert_eq!(verdict, NodeVerdict::Linked);
    assert!(now.is_empty(), "our stream is not known yet, so the plan waits");
    links.on_client(2, client(OWN_PID));
    let (verdict, now) = links.on_node(own_stream_node(50, 2));
    assert_eq!(verdict, NodeVerdict::Own);
    assert!(now.is_empty());
    assert_eq!(links.stream_node, Some(50));
    assert!(links.on_port(in_port(51, 50, "FL")).is_empty(), "the right input is still unknown");
    assert_eq!(links.on_port(in_port(52, 50, "FR")), [request(10, 20, 50, 51)]);
    assert!(links.deferred.is_empty());
    assert_eq!(links.on_port(port(21, 10, "FR")), [request(10, 21, 50, 52)]);
    assert_eq!(links.on_port(port(22, 10, "MONO")), [request(10, 22, 50, 51), request(10, 22, 50, 52)]);
}

#[test]
fn our_own_output_ports_and_unknown_channels_place_nothing() {
    let mut links = CaptureLinks::new(graph(AudioSelection::All));
    links.on_client(2, client(OWN_PID));
    links.on_node(own_stream_node(50, 2));
    assert!(links.on_port(Port { id: 53, node: 50, direction_out: true, channel: "FL".into() }).is_empty());
    assert!(links.on_port(in_port(54, 50, "AUX0")).is_empty());
    assert_eq!((links.left, links.right), (None, None));
}

#[test]
fn removing_a_node_keeps_what_is_known_of_our_stream() {
    let mut links = CaptureLinks::new(graph(AudioSelection::All));
    links.on_client(2, client(OWN_PID));
    links.on_node(own_stream_node(50, 2));
    links.on_port(in_port(51, 50, "FL"));
    links.on_remove(50);
    assert_eq!(links.stream_node, Some(50));
    assert_eq!(links.left, Some(51));
}

// ---- Windows process-loopback clients

#[test]
fn a_reconcile_stops_the_undesired_and_the_finished_and_starts_the_missing() {
    let plan = plan_reconcile(&[(10, false), (20, true), (30, false)], &[10, 20, 40], &[40, 99]);
    assert_eq!(plan.stop, [20, 30]);
    assert_eq!(plan.start, [20, 40]);
    assert_eq!(plan.failed, [40]);
}

#[test]
fn nothing_to_do_when_the_running_clients_are_the_desired_ones() {
    let plan = plan_reconcile(&[(10, false)], &[10], &[]);
    assert!(plan.stop.is_empty() && plan.start.is_empty() && plan.failed.is_empty());
}

#[test]
fn a_start_failure_warns_once_and_a_success_forgets_it() {
    let mut failed = Vec::new();
    assert!(record_start(&mut failed, 7, false));
    assert!(!record_start(&mut failed, 7, false), "already warned about this root");
    assert_eq!(failed, [7]);
    failed.push(8);
    assert!(!record_start(&mut failed, 7, true));
    assert_eq!(failed, [8]);
}

#[test]
fn audio_errors_name_what_failed() {
    use_error_messages();
}

use brp::output::AudioError;

fn use_error_messages() {
    assert_eq!(AudioError::PipeWire("gone".into()).message(), "PipeWire: gone");
    assert_eq!(AudioError::Windows("x".into()).message(), "windows: x");
    assert_eq!(AudioError::Unsupported("y".into()).message(), "unsupported on this system: y");
    assert_eq!(AudioError::Device("z".into()).message(), "audio device: z");
    assert_eq!(AudioError::Format("w".into()).message(), "format refused: w");
}

#[test]
fn a_failed_windows_call_names_itself() {
    match brp::output::windows_error("OpenProcess", "access denied") {
        AudioError::Windows(message) => assert_eq!(message, "OpenProcess: access denied"),
        other => panic!("unexpected {other:?}"),
    }
}

#[test]
fn after_a_reconcile_each_desired_root_has_one_client_and_no_other_root_has_any() {
    let running = [(1, false), (2, true), (3, false)];
    let desired = [1, 2, 4];
    let plan = plan_reconcile(&running, &desired, &[]);
    let mut after: Vec<u32> = running.iter().map(|r| r.0).filter(|root| !plan.stop.contains(root)).collect();
    for root in &plan.start {
        assert!(!after.contains(root), "root {root} would get a second client");
        after.push(*root);
    }
    after.sort_unstable();
    assert_eq!(after, vec![1, 2, 4]);
}

#[test]
fn after_a_remove_the_object_is_forgotten_as_node_port_and_client() {
    let mut graph = graph(AudioSelection::All);
    graph.add_client(50, app(1000, "firefox", "Firefox"));
    assert_eq!(graph.add_node(node(10, Some(50))), NodeVerdict::Linked);
    assert!(graph.add_port(port(11, 10, "FL")).is_some());
    assert_eq!(graph.sources().len(), 1);
    graph.remove(10);
    assert!(graph.pending_links(10).is_empty(), "no port waits for a removed node");
    assert_eq!(graph.add_port(port(12, 10, "FR")), None, "a later port of a removed node is not linked");
    assert!(graph.sources().is_empty(), "a removed node is no source");
    graph.remove(50);
    assert_eq!(graph.add_node(node(20, Some(50))), NodeVerdict::Unresolved, "a removed client resolves nothing");
    graph.add_client(50, client(1000));
    assert_eq!(graph.add_node(node(21, Some(50))), NodeVerdict::Linked, "until it is reported again");
}

#[test]
fn a_source_keeps_whole_frames_and_stamps_its_first_sample() {
    let mut clock = SourceClock::new();
    assert_eq!(clock.push(1, 500, 2, 6, 48_000), (0, 0), "no whole frame changes nothing");
    assert_eq!(clock, SourceClock::new());
    assert_eq!(clock.push(5, 1000, 2, 100, 48_000), (4, 0));
    assert_eq!(clock, SourceClock { queued: 4, front_ts_us: Some(1000) });
    assert_eq!(clock.push(2, 9000, 2, 100, 48_000), (2, 0));
    assert_eq!(clock.front_ts_us, Some(1000), "a later chunk does not restamp the front");
}

#[test]
fn a_lagging_source_drops_its_oldest_samples_and_moves_its_stamp() {
    let mut clock = SourceClock::new();
    assert_eq!(clock.push(6, 1000, 2, 6, 48_000), (6, 0));
    assert_eq!(clock.push(4, 2000, 2, 6, 48_000), (4, 4));
    // Two frames of 48 kHz audio are 41.6 µs, rounded down.
    assert_eq!(clock, SourceClock { queued: 6, front_ts_us: Some(1041) });
}

#[test]
fn a_packet_takes_a_quantum_and_an_empty_source_underruns() {
    let mut clock = SourceClock::new();
    clock.push(6, 1000, 2, 100, 48_000);
    assert_eq!(clock.take_packet(4, 2, 48_000), (4, false));
    assert_eq!(clock, SourceClock { queued: 2, front_ts_us: Some(1041) });
    assert_eq!(clock.take_packet(4, 2, 48_000), (2, true));
    assert_eq!(clock, SourceClock { queued: 0, front_ts_us: None });
    assert_eq!(clock.take_packet(4, 2, 48_000), (0, true));
}

#[test]
fn a_packet_is_stamped_with_the_earliest_source() {
    assert_eq!(earliest(Some(5), Some(3)), Some(3));
    assert_eq!(earliest(Some(3), Some(5)), Some(3));
    assert_eq!(earliest(None, Some(3)), Some(3));
    assert_eq!(earliest(Some(5), None), Some(5));
    assert_eq!(earliest(None, None), None);
}

#[test]
fn a_stamp_saturates_instead_of_wrapping() {
    let mut clock = SourceClock::new();
    clock.push(4, u64::MAX - 1, 2, 100, 1);
    assert_eq!(clock.take_packet(2, 2, 1), (2, false));
    assert_eq!(clock.front_ts_us, Some(u64::MAX));
}

#[test]
fn an_id_map_lists_its_ids_in_increasing_order() {
    let mut map = IdMap::new();
    map.insert(30, "c");
    map.insert(10, "a");
    map.insert(20, "b");
    map.insert(10, "A");
    assert_eq!(map.ids(), vec![10, 20, 30]);
    assert_eq!(map.get(10), Some(&"A"));
    assert_eq!(map.remove(20), Some("b"));
    assert_eq!(map.remove(20), None);
    assert_eq!(map.ids(), vec![10, 30]);
    assert!(!map.contains(20));
    assert!(map.contains(30));
}
