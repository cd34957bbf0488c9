use multiplex::panes::{pane_connection_notice, PaneNotice};
use multiplex::about::{build_commit, details, platform};
use multiplex::assets::{icon_path_list, Assets};
use multiplex::live_sessions::{live_console_sessions, live_session, newest_first, LiveConsoleSession, MAX_LISTED};
use multiplex::panes::{eq_ignore_ascii_case, is_own_tmux_session, open_pane_for_profile, PaneConnection};
use multiplex::background_service::{
    is_yield_ack, is_yield_request, launchctl_service_target, screen_capture_line, request_yield, yield_ack_bytes, yield_request_bytes,
    after_attempt, install, launch_agent_plist, next_step, remove, service_command, status, status_line,
    yield_socket_path, ServiceCommand, ServiceError, ServiceStatus, SupervisorStep,
};
use multiplex::console_sessions::{
    console_sessions_root, read_console_session, ConsoleSessionRecord, CONSOLE_SESSIONS_DIR, MAX_RECORD_BYTES,
    SCHEMA_VERSION,
};
use multiplex::env_names::{is_set, legacy_name, var_os, LEGACY_PREFIX, PREFIX};
use multiplex::ipc::{
    durable_runtime_parent, RuntimeFamily, ClientErrorCode, FakePeerAuthorizer, LocalEndpoint, PeerAuthorizer, PeerIdentity,
    WindowsNamedPipeSecurityAdapter,
};
use multiplex::shell::{
    candidates, default_shell, display_name, is_path, shell_arguments, terminal_size, CliPaths, ShellLauncher,
    SHELL_SESSION_ENV,
};
use multiplex::tray::{describe, fill, newcomers, tooltip, watching_notice, wide, ScreenWatcher};

#[test]
fn a_legacy_name_is_only_derived_for_our_own_variables() {
    assert_eq!(
        legacy_name("MULTIPLEX_CONFIG_DIR").as_deref(),
        Some("TERMIRUST_CONFIG_DIR")
    );
    assert_eq!(legacy_name("MULTIPLEX_").as_deref(), Some("TERMIRUST_"));
    assert_eq!(legacy_name("PATH"), None);
    assert_eq!(legacy_name("HOME"), None);
    // Not ours, and close enough to something of ours to be worth stating.
    assert_eq!(legacy_name("TERMIRUST_CONFIG_DIR"), None);
    assert_eq!(legacy_name("MY_MULTIPLEX_CONFIG_DIR"), None);
}

#[test]
fn the_prefixes_are_what_the_rest_of_the_workspace_spells() {
    assert!(PREFIX.ends_with('_'));
    assert!(LEGACY_PREFIX.ends_with('_'));
    assert_ne!(PREFIX, LEGACY_PREFIX);
}

#[test]
fn the_new_name_wins_and_the_old_one_is_a_fallback() {
    assert_eq!(var_os(Some("new".to_owned()), Some("old".to_owned())).as_deref(), Some("new"));
    assert_eq!(var_os(None, Some("old".to_owned())).as_deref(), Some("old"));
    assert_eq!(var_os(None, None), None);
    assert!(is_set(None, Some("1".to_owned())));
    assert!(!is_set(Some(String::new()), Some("1".to_owned())));
    assert!(!is_set(None, None));
}

#[test]
fn a_program_is_named_without_its_path_or_extension() {
    assert_eq!(display_name("pwsh.exe"), "pwsh");
    assert_eq!(display_name("/bin/zsh"), "zsh");
}

#[test]
fn odd_program_names_keep_what_names_them() {
    assert_eq!(display_name(".bashrc"), ".bashrc");
    assert_eq!(display_name("archive.tar.gz"), "archive.tar");
    assert_eq!(display_name("/usr/bin/"), "bin");
    assert_eq!(display_name(".."), "..");
    assert_eq!(display_name("/"), "/");
    assert_eq!(SHELL_SESSION_ENV, "MULTIPLEX_SHELL_SESSION");
}

#[test]
fn the_shell_command_line_names_a_program_after_a_separator() {
    assert_eq!(shell_arguments(&vec![]), Some((None, vec![])));
    assert_eq!(
        shell_arguments(&vec!["--".to_owned(), "bash".to_owned(), "-l".to_owned()]),
        Some((Some("bash".to_owned()), vec!["-l".to_owned()]))
    );
    assert_eq!(shell_arguments(&vec!["bash".to_owned()]), None);
    assert_eq!(shell_arguments(&vec!["--".to_owned()]), None);
}

#[test]
fn the_root_sits_beside_the_durable_session_data() {
    assert_eq!(
        console_sessions_root("config/durable-sessions"),
        format!("config/{CONSOLE_SESSIONS_DIR}")
    );
}

#[test]
fn the_root_of_a_bare_folder_is_the_sessions_folder_itself() {
    assert_eq!(console_sessions_root("durable-sessions"), CONSOLE_SESSIONS_DIR);
    assert_eq!(console_sessions_root("/"), CONSOLE_SESSIONS_DIR);
    assert_eq!(console_sessions_root("/data/sessions/"), "/data/console-sessions");
    assert_eq!(console_sessions_root("/sessions"), "/console-sessions");
}

fn record(session_id: &str) -> ConsoleSessionRecord {
    ConsoleSessionRecord {
        schema_version: SCHEMA_VERSION,
        session_id: session_id.to_owned(),
        program: "pwsh".to_owned(),
        working_directory: "projects/multiplex".to_owned(),
        started_at: 42,
    }
}

#[test]
fn a_session_is_titled_by_its_shell_and_folder() {
    assert_eq!(record("s1").title(), "pwsh in multiplex");
    let mut rootless = record("s1");
    rootless.working_directory = "/".to_owned();
    assert_eq!(rootless.title(), "pwsh");
}

#[test]
fn a_record_is_read_back_only_from_its_own_folder() {
    assert_eq!(read_console_session(true, 100, Some(record("s1")), "/root/s1"), Some(record("s1")));
    assert_eq!(read_console_session(true, 100, Some(record("s1")), "/root/s2"), None);
    assert_eq!(read_console_session(false, 100, Some(record("s1")), "/root/s1"), None);
    assert_eq!(read_console_session(true, MAX_RECORD_BYTES + 1, Some(record("s1")), "/root/s1"), None);
    let mut newer = record("s1");
    newer.schema_version = 2;
    assert_eq!(read_console_session(true, 100, Some(newer), "/root/s1"), None);
}

#[test]
fn fake_and_windows_boundary_fail_closed() {
    let adapter = WindowsNamedPipeSecurityAdapter::new(FakePeerAuthorizer::new(7));
    assert!(adapter.authorize_sid_token(7).is_ok());
    assert_eq!(
        adapter.authorize_sid_token(8).unwrap_err().code,
        ClientErrorCode::PermissionDenied
    );
    assert!(FakePeerAuthorizer::new(3).authorize(PeerIdentity { principal: 3 }).is_ok());
}

#[test]
fn the_socket_sits_inside_the_runtime_root() {
    let endpoint = LocalEndpoint::new("/tmp/termirust-501/s1".to_owned(), "h0123");
    assert_eq!(endpoint.runtime_root(), "/tmp/termirust-501/s1");
    assert_eq!(endpoint.socket_path(), "/tmp/termirust-501/s1/h0123");
}

fn watcher(name: &str, controlling: bool) -> ScreenWatcher {
    ScreenWatcher { display_name: name.to_owned(), controlling }
}

#[test]
fn the_status_line_says_who_is_watching() {
    assert_eq!(describe(&vec![]), "Paired devices can reach this PC");
    assert_eq!(describe(&vec![watcher("Phone", false)]), "Phone is viewing your screen");
    assert_eq!(describe(&vec![watcher("Phone", true)]), "Phone is controlling your screen");
    assert_eq!(
        describe(&vec![watcher("Phone", true), watcher("Laptop", false)]),
        "2 devices are viewing your screen, one controlling it"
    );
    assert_eq!(
        describe(&vec![watcher("Phone", false), watcher("Laptop", false), watcher("Tablet", false)]),
        "3 devices are viewing your screen"
    );
    assert_eq!(tooltip(&vec![]), "Multiplex: Paired devices can reach this PC");
    assert_eq!(watching_notice("Phone"), "Phone started viewing your screen.");
}

#[test]
fn long_text_is_cut_to_fit_its_field() {
    let mut field = [1_u16; 8];
    fill(&mut field, "a much longer tooltip");
    assert_eq!(field[7], 0);
    assert_eq!(String::from_utf16_lossy(&field[..7]), "a much ");
}

#[test]
fn short_text_leaves_the_rest_of_its_field() {
    let mut field = [9_u16; 6];
    fill(&mut field, "ab");
    assert_eq!(field, [97, 98, 0, 9, 9, 9]);
    assert_eq!(wide("a\u{1F600}"), vec![97, 0xD83D, 0xDE00, 0]);
}

#[test]
fn newcomers_are_the_devices_not_watching_before() {
    let now = vec!["Phone".to_owned(), "Laptop".to_owned(), "Tablet".to_owned()];
    let before = vec!["Laptop".to_owned()];
    assert_eq!(newcomers(&now, &before), vec!["Phone".to_owned(), "Tablet".to_owned()]);
    assert!(newcomers(&before, &now).is_empty());
}

#[test]
fn launch_agent_plist_is_escaped_and_valid() {
    let plist = launch_agent_plist(
        "/Applications/Terminal & Co <beta>.app/Contents/MacOS/multiplex",
        "/Users/me/Library/Application Support/multiplex/controller-service.log",
    );
    assert!(plist.contains("<string>com.millionrust.multiplex.controller-service</string>"));
    assert!(plist.contains("Terminal &amp; Co &lt;beta&gt;.app"));
    assert!(plist.contains("<string>controller-service</string>\n\t\t<string>run</string>"));
    assert!(plist.starts_with("<?xml version=\"1.0\" encoding=\"UTF-8\"?>\n"));
    assert!(plist.ends_with("</dict>\n</plist>\n"));
}

#[test]
fn the_service_command_line_is_one_word() {
    assert_eq!(service_command(&vec!["run".to_owned()]), Ok(ServiceCommand::Run));
    assert_eq!(service_command(&vec!["install".to_owned()]), Ok(ServiceCommand::Install));
    assert_eq!(service_command(&vec!["remove".to_owned()]), Ok(ServiceCommand::Remove));
    assert_eq!(service_command(&vec!["status".to_owned()]), Ok(ServiceCommand::Status));
    assert_eq!(service_command(&vec![]), Err(ServiceError("service.usage")));
    assert_eq!(
        service_command(&vec!["run".to_owned(), "now".to_owned()]).unwrap_err().code(),
        "service.usage"
    );
    assert_eq!(status_line(ServiceStatus::Installed), "installed, not running");
    assert_eq!(status(), ServiceStatus::Unsupported);
    assert_eq!(install().unwrap_err().code(), "service.unsupported");
    assert_eq!(remove().unwrap_err().code(), "service.unsupported");
    assert_eq!(yield_socket_path("/run/mx"), "/run/mx/controller-service.sock");
}

#[test]
fn the_supervisor_yields_first_and_retries_later() {
    assert_eq!(next_step(true, false, true, true), SupervisorStep::Yield { stop_listener: true });
    assert_eq!(next_step(false, false, true, true), SupervisorStep::Yield { stop_listener: false });
    assert_eq!(next_step(true, true, false, true), SupervisorStep::Retire);
    assert_eq!(next_step(false, false, false, true), SupervisorStep::Attempt);
    assert_eq!(next_step(false, false, false, false), SupervisorStep::Wait);
    assert_eq!(next_step(true, false, false, true), SupervisorStep::Wait);
    assert_eq!(after_attempt(true, true), (true, false));
    assert_eq!(after_attempt(true, false), (false, true));
    assert_eq!(after_attempt(false, true), (false, true));
}

fn launcher() -> ShellLauncher {
    ShellLauncher::new(CliPaths {
        config_root: "/home/ada/.config/multiplex".to_owned(),
        runtime_parent: "/run/user/1000/multiplex".to_owned(),
        host_executable: "/opt/multiplex/multiplex-host".to_owned(),
    })
}

#[test]
fn a_session_gets_a_folder_under_the_configuration_and_a_runtime_folder() {
    let launcher = launcher();
    assert_eq!(launcher.session_dir("s-1"), "/home/ada/.config/multiplex/console-sessions/s-1");
    assert_eq!(launcher.runtime_root("s-1"), "/run/user/1000/multiplex/s-1");
    assert_eq!(launcher.paths().host_executable, "/opt/multiplex/multiplex-host");
}

#[test]
fn only_an_interactive_unnested_launch_with_a_host_gets_a_session() {
    let launcher = launcher();
    let default = ("/bin/zsh".to_owned(), vec!["-l".to_owned()]);
    let run = launcher.plan_run(None, Vec::new(), default.clone(), true, false, true);
    assert!(run.in_session);
    assert_eq!(run.program, "/bin/zsh");
    assert_eq!(run.arguments, vec!["-l".to_owned()]);
    let run = launcher.plan_run(Some("fish".to_owned()), vec!["-i".to_owned()], default.clone(), true, true, true);
    assert!(!run.in_session);
    assert_eq!(run.program, "fish");
    assert_eq!(run.arguments, vec!["-i".to_owned()]);
    assert!(!launcher.plan_run(None, Vec::new(), default.clone(), false, false, true).in_session);
    assert!(!launcher.plan_run(None, Vec::new(), default, true, false, false).in_session);
}

#[test]
fn the_session_record_names_the_program_as_a_person_would() {
    let record = launcher().record("s-1".to_owned(), "/usr/bin/pwsh.exe", "/home/ada".to_owned(), 42);
    assert_eq!(record.program, "pwsh");
    assert_eq!(record.session_id, "s-1");
    assert_eq!(record.schema_version, SCHEMA_VERSION);
    assert_eq!(record.started_at, 42);
}

#[test]
fn a_terminal_without_a_usable_size_gets_the_classic_one() {
    assert_eq!(terminal_size(None), (80, 24));
    assert_eq!(terminal_size(Some((9, 40))), (80, 24));
    assert_eq!(terminal_size(Some((120, 1))), (80, 24));
    assert_eq!(terminal_size(Some((120, 40))), (120, 40));
    assert_eq!(terminal_size(Some((5000, 2))), (1000, 2));
}

#[test]
fn each_platform_has_its_default_shell() {
    assert_eq!(default_shell(true, true, true, None, None), ("pwsh.exe".to_owned(), vec!["-NoLogo".to_owned()]));
    assert_eq!(
        default_shell(true, false, true, None, None),
        ("powershell.exe".to_owned(), vec!["-NoLogo".to_owned()])
    );
    assert_eq!(default_shell(true, false, false, None, None), ("cmd.exe".to_owned(), Vec::new()));
    assert_eq!(
        default_shell(true, false, false, Some("C:\\Windows\\cmd.exe".to_owned()), None).0,
        "C:\\Windows\\cmd.exe"
    );
    assert_eq!(default_shell(false, true, true, None, None), ("/bin/sh".to_owned(), vec!["-l".to_owned()]));
    assert_eq!(default_shell(false, false, false, None, Some("/bin/zsh".to_owned())).0, "/bin/zsh");
}

#[test]
fn a_path_is_taken_as_it_is_and_a_name_is_looked_up() {
    assert!(is_path("/bin/zsh"));
    assert!(is_path("tools/shell"));
    assert!(is_path("./shell"));
    assert!(!is_path("zsh"));
    assert!(!is_path("."));
    let folders = vec!["/usr/bin".to_owned(), "/bin/".to_owned()];
    assert_eq!(candidates("zsh", &folders, false), vec!["/usr/bin/zsh".to_owned(), "/bin/zsh".to_owned()]);
    assert_eq!(
        candidates("pwsh", &folders, true),
        vec![
            "/usr/bin/pwsh".to_owned(),
            "/usr/bin/pwsh.exe".to_owned(),
            "/bin/pwsh".to_owned(),
            "/bin/pwsh.exe".to_owned()
        ]
    );
}

#[test]
fn icons_are_found_by_their_path_and_listed_by_folder() {
    let assets = Assets;
    let all = icon_path_list();
    assert_eq!(all.len(), 86);
    assert_eq!(assets.load("icons/status/diamond.svg"), Some(0));
    assert_eq!(assets.load("icons/undo-2.svg"), Some(85));
    assert_eq!(assets.load("icons/none.svg"), None);
    assert_eq!(assets.list("").len(), 86);
    let status = assets.list("icons/status/");
    assert_eq!(status.len(), 8);
    assert!(status.iter().all(|path| path.starts_with("icons/status/")));
    assert_eq!(assets.list("icons/chevron-"), vec![
        "icons/chevron-down.svg".to_owned(),
        "icons/chevron-left.svg".to_owned(),
        "icons/chevron-right.svg".to_owned(),
        "icons/chevron-up.svg".to_owned()
    ]);
}

#[test]
fn the_yield_exchange_is_one_line_each_way() {
    assert_eq!(yield_request_bytes(), b"yield\n".to_vec());
    assert_eq!(yield_ack_bytes(), b"released\n".to_vec());
    assert!(is_yield_request(b"yield\n"));
    assert!(!is_yield_request(b"yield"));
    assert!(is_yield_ack(b"released\n"));
    assert!(!is_yield_ack(b"refused\n\n"));
    assert!(!request_yield("/run/user/1000/multiplex"));
}

#[test]
fn session_runtimes_live_below_the_temporary_folder_on_unix() {
    assert_eq!(durable_runtime_parent(RuntimeFamily::MacOs, 501, "/Users/ada/cfg"), "/private/tmp/termirust-501");
    assert_eq!(durable_runtime_parent(RuntimeFamily::OtherUnix, 1000, "/home/ada/cfg"), "/tmp/termirust-1000");
    assert_eq!(
        durable_runtime_parent(RuntimeFamily::NotUnix, 0, "C:/Users/ada/AppData/Multiplex"),
        "C:/Users/ada/AppData/Multiplex/session-host-runtime"
    );
    let endpoint = LocalEndpoint::for_config_root("/home/ada/cfg", RuntimeFamily::OtherUnix, 1000, "s-1", "host.sock");
    assert_eq!(endpoint.runtime_root(), "/tmp/termirust-1000/s-1");
    assert_eq!(endpoint.socket_path(), "/tmp/termirust-1000/s-1/host.sock");
}

#[test]
fn launchctl_names_the_agent_in_the_user_gui_domain() {
    assert_eq!(launchctl_service_target(501), "gui/501/com.millionrust.multiplex.controller-service");
}

#[test]
fn only_macos_without_the_grant_gets_the_screen_recording_line() {
    let line = screen_capture_line(true, false).unwrap();
    assert!(line.starts_with("Screens are not shared yet"));
    assert!(line.contains("allow com.millionrust.multiplex.controller-service."));
    assert_eq!(screen_capture_line(true, true), None);
    assert_eq!(screen_capture_line(false, false), None);
}

#[test]
fn the_about_line_has_everything_a_bug_report_needs() {
    assert_eq!(build_commit(None), "unknown");
    assert_eq!(build_commit(Some("abc1234")), "abc1234");
    assert_eq!(platform("linux", "x86_64"), "linux x86_64");
    assert_eq!(
        details("0.3.0", Some("abc1234"), "macos", "aarch64"),
        "Multiplex 0.3.0 (abc1234) on macos aarch64"
    );
    assert_eq!(details("0.3.0", None, "linux", "x86_64"), "Multiplex 0.3.0 (unknown) on linux x86_64");
}

fn pane(pane_id: u64, closed: bool, ssh: bool, host: &str, port: u16, username: &str) -> PaneConnection {
    PaneConnection { pane_id, closed, ssh, host: host.to_owned(), port, username: username.to_owned() }
}

#[test]
fn a_saved_host_goes_to_the_first_open_pane_connected_to_it() {
    let panes = vec![
        pane(1, true, true, "build.example", 22, "ada"),
        pane(2, false, false, "build.example", 22, "ada"),
        pane(3, false, true, "build.example", 2222, "ada"),
        pane(4, false, true, "BUILD.Example", 22, "ada"),
        pane(5, false, true, "build.example", 22, "ada"),
    ];
    assert_eq!(open_pane_for_profile(&panes, "build.example", 22, "ada"), Some(4));
    assert_eq!(open_pane_for_profile(&panes, "build.example", 22, "grace"), None);
    assert_eq!(open_pane_for_profile(&panes, "build.example", 2222, "ada"), Some(3));
    assert_eq!(open_pane_for_profile(&Vec::new(), "build.example", 22, "ada"), None);
}

#[test]
fn host_names_compare_without_ascii_case() {
    assert!(eq_ignore_ascii_case("Build.Example", "build.EXAMPLE"));
    assert!(!eq_ignore_ascii_case("build", "builds"));
    assert!(!eq_ignore_ascii_case("straße", "STRASSE"));
}

#[test]
fn tmux_sessions_the_app_started_are_not_other_terminals() {
    assert!(is_own_tmux_session("multiplex-3f2a"));
    assert!(is_own_tmux_session("termirust-1"));
    assert!(!is_own_tmux_session("work"));
    assert!(!is_own_tmux_session("my-multiplex-notes"));
}

fn console_record(id: &str, started_at: u64) -> ConsoleSessionRecord {
    ConsoleSessionRecord {
        schema_version: SCHEMA_VERSION,
        session_id: id.to_owned(),
        program: "zsh".to_owned(),
        working_directory: "/home/ada/projects".to_owned(),
        started_at,
    }
}

#[test]
fn a_session_is_live_only_while_its_host_serves_it() {
    let live = live_session(console_record("s-1", 5), "s-1", true, 7, true).unwrap();
    assert_eq!(live.generation, 7);
    assert_eq!(live.record.session_id, "s-1");
    assert!(live_session(console_record("s-1", 5), "s-2", true, 7, true).is_none());
    assert!(live_session(console_record("s-1", 5), "s-1", false, 7, true).is_none());
    assert!(live_session(console_record("s-1", 5), "s-1", true, 7, false).is_none());
    assert_eq!(MAX_LISTED, 256);
}

#[test]
fn live_sessions_are_listed_newest_first_then_by_identifier() {
    let sessions = vec![
        LiveConsoleSession { record: console_record("b", 10), generation: 1 },
        LiveConsoleSession { record: console_record("c", 30), generation: 2 },
        LiveConsoleSession { record: console_record("a", 10), generation: 3 },
        LiveConsoleSession { record: console_record("d", 20), generation: 4 },
    ];
    let ordered: Vec<String> = newest_first(sessions).into_iter().map(|live| live.record.session_id).collect();
    assert_eq!(ordered, vec!["c", "d", "a", "b"]);
    assert!(newest_first(Vec::new()).is_empty());
}

#[test]
fn nothing_answers_when_no_service_runs() {
    assert!(!request_yield("/tmp/multiplex-no-service"));
}

#[test]
fn no_service_means_no_yield_and_no_delay() {
    let started = std::time::Instant::now();
    assert!(!request_yield("/tmp/multiplex-no-service-delay"));
    assert!(started.elapsed() < std::time::Duration::from_secs(1));
}

#[test]
fn a_missing_grant_says_whose_grant_is_missing() {
    assert_eq!(screen_capture_line(true, true), None);
    let line = screen_capture_line(true, false).unwrap();
    assert!(
        line.contains("com.millionrust.multiplex.controller-service"),
        "the message must name the process to allow: {line}"
    );
    assert!(
        line.contains("Screen Recording") || line.contains("Screen & System Audio Recording"),
        "and where to allow it: {line}"
    );
    assert!(line.contains("does not cover the service"), "and why granting the app was not enough: {line}");
}

#[test]
fn the_details_name_the_version_and_platform() {
    let details = details("0.3.0", None, "linux", "x86_64");
    assert!(details.starts_with(&format!("Multiplex {}", "0.3.0")));
    assert!(details.ends_with(&platform("linux", "x86_64")));
}

#[test]
fn config_root_resolution_is_opaque_and_debug_output_is_redacted() {
    let endpoint = LocalEndpoint::for_config_root("/sensitive/config", RuntimeFamily::NotUnix, 0, "s-1", "host-endpoint");
    let socket = std::path::Path::new(endpoint.socket_path());
    assert_eq!(socket.parent(), Some(std::path::Path::new(endpoint.runtime_root())));
}

#[test]
fn a_folder_is_listed_no_further_than_its_first_entries() {
    let mut entries: Vec<Option<LiveConsoleSession>> = vec![
        None,
        Some(LiveConsoleSession { record: console_record("a", 1), generation: 1 }),
        Some(LiveConsoleSession { record: console_record("b", 9), generation: 1 }),
    ];
    let listed = live_console_sessions(entries);
    let ids: Vec<&str> = listed.iter().map(|s| s.record.session_id.as_str()).collect();
    assert_eq!(ids, vec!["b", "a"]);

    entries = (0..MAX_LISTED as u64)
        .map(|n| Some(LiveConsoleSession { record: console_record(&format!("s-{n:03}"), n), generation: 0 }))
        .collect();
    entries.push(Some(LiveConsoleSession { record: console_record("late", 10_000), generation: 0 }));
    let listed = live_console_sessions(entries);
    assert_eq!(listed.len(), MAX_LISTED);
    assert_eq!(listed[0].record.session_id, "s-255");
    assert!(listed.iter().all(|s| s.record.session_id != "late"));
}

#[test]
fn a_pane_that_is_not_connected_says_why() {
    assert_eq!(pane_connection_notice(true, false, true, false, true, true, false), None);
    assert_eq!(pane_connection_notice(false, true, true, false, true, true, false), None);
    assert_eq!(pane_connection_notice(false, false, false, false, false, false, false), Some(PaneNotice::ConnectingCard));
    assert_eq!(pane_connection_notice(false, false, false, true, false, false, false), None);
    assert_eq!(
        pane_connection_notice(false, false, true, false, true, true, false),
        Some(PaneNotice::Failed { retrying: false })
    );
    assert_eq!(
        pane_connection_notice(false, false, true, false, false, true, true),
        Some(PaneNotice::Closed { retrying: true })
    );
    assert_eq!(
        pane_connection_notice(false, false, true, false, false, false, false),
        Some(PaneNotice::Connecting { retrying: true })
    );
    assert_eq!(
        pane_connection_notice(false, false, true, true, false, true, false),
        Some(PaneNotice::Closed { retrying: false })
    );
}
