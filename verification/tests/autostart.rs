use span::autostart::{
    advance, bootstrap_command, create_task_command, desktop_entry, escape_xml,
    executable_fingerprint, failure_text, install, kickstart_command, launch_agent_plist,
    launch_agent_service, launchctl_output_is_running, launchctl_state, leaves_no_file,
    plist_changed, print_command, start_installation, start_process, task_command, uninstall,
    Action, Directories, Event, Failure, LaunchAgentState, Os, Phase, Registration, Variable,
};
use span::error::{Error, ErrorKind};

const ALL: Directories = Directories { home: true, app_data: true, xdg_config_home: true };
const NONE: Directories = Directories { home: false, app_data: false, xdg_config_home: false };

#[test]
fn launchctl_running_state_is_recognized() {
    let output = b"gui/501/com.span.daemon = {\n\tstate = running\n\tpid = 123\n}";
    assert!(launchctl_output_is_running(output));
}

#[test]
fn loaded_but_stopped_state_is_not_running() {
    let output = b"gui/501/com.span.daemon = {\n\tstate = not running\n\tlast exit code = 0\n}";
    assert!(!launchctl_output_is_running(output));
}

#[test]
fn zero_pid_is_not_running() {
    let output = b"gui/501/com.span.daemon = {\n\tstate = not running\n\tpid = 0\n}";
    assert!(!launchctl_output_is_running(output));
}

#[test]
fn process_number_shows_that_the_process_runs() {
    assert!(launchctl_output_is_running(b"\tpid = 7\r\n"));
    assert!(launchctl_output_is_running(b"pid = +7"));
    assert!(!launchctl_output_is_running(b"pid = 4294967296"));
    assert!(launchctl_output_is_running(b"pid = 4294967295"));
    assert!(!launchctl_output_is_running(b"pid = -7"));
    assert!(!launchctl_output_is_running(b"pid = 7x"));
    assert!(launchctl_output_is_running(b"\xff\n state = running \n"));
    assert!(!launchctl_output_is_running(b"\xffstate = running"));
    assert_eq!(launchctl_state(None), LaunchAgentState::NotLoaded);
    assert_eq!(launchctl_state(Some(b"")), LaunchAgentState::Loaded);
    assert_eq!(launchctl_state(Some(b"pid = 1")), LaunchAgentState::Running);
}

#[test]
fn each_system_has_its_registration() {
    let (registration, location) = install(Os::MacOs, &ALL).unwrap();
    assert_eq!(registration, Registration::LaunchAgent);
    assert_eq!(location.variable, Variable::Home);
    assert_eq!(location.relative, "Library/LaunchAgents/com.span.daemon.plist");
    let (registration, location) = install(Os::Windows, &ALL).unwrap();
    assert_eq!(registration, Registration::ScheduledTask);
    assert_eq!(location.variable, Variable::AppData);
    assert_eq!(
        location.relative,
        "Microsoft/Windows/Start Menu/Programs/Startup/span.cmd"
    );
    let (registration, location) = install(Os::Unix, &ALL).unwrap();
    assert_eq!(registration, Registration::DesktopEntry);
    assert_eq!(location.variable, Variable::XdgConfigHome);
    assert_eq!(location.relative, "autostart/span.desktop");
    let home = Directories { xdg_config_home: false, ..ALL };
    let (_, location) = install(Os::Unix, &home).unwrap();
    assert_eq!(location.variable, Variable::Home);
    assert_eq!(location.relative, ".config/autostart/span.desktop");
}

#[test]
fn missing_directories_and_systems_are_reported() {
    let expected = [
        (Os::MacOs, ErrorKind::NotFound, "HOME not set"),
        (Os::Windows, ErrorKind::NotFound, "APPDATA not set"),
        (Os::Unix, ErrorKind::NotFound, "config directory not found"),
        (Os::Other, ErrorKind::Unsupported, "autostart unsupported on this platform"),
    ];
    for (os, kind, message) in expected {
        let error = install(os, &NONE).unwrap_err();
        assert_eq!((error.kind, error.message), (kind, message));
        let removal = uninstall(os, &NONE, 501);
        assert_eq!(removal.file.unwrap_err().message, message);
    }
    assert!(install(Os::Other, &ALL).is_err());
}

#[test]
fn removal_ends_the_registration_first() {
    let mac = uninstall(Os::MacOs, &ALL, 501).command.unwrap();
    assert_eq!(mac.program, "launchctl");
    assert_eq!(mac.arguments, vec!["bootout", "gui/501/com.span.daemon"]);
    assert!(uninstall(Os::MacOs, &NONE, 501).command.is_none());
    let windows = uninstall(Os::Windows, &NONE, 0).command.unwrap();
    assert_eq!(windows.program, "schtasks");
    assert_eq!(windows.arguments, vec!["/Delete", "/TN", "Span", "/F"]);
    assert!(uninstall(Os::Unix, &ALL, 0).command.is_none());
    assert!(leaves_no_file(&Ok(())));
    assert!(leaves_no_file(&Err(Error::new(ErrorKind::NotFound, ""))));
    assert!(!leaves_no_file(&Err(Error::new(ErrorKind::Other, ""))));
}

#[test]
fn scheduled_task_starts_the_window_where_there_is_one() {
    assert_eq!(task_command(Some("C:\\span-gui.exe"), "C:\\span.exe"), "\"C:\\span-gui.exe\" --hidden");
    let line = task_command(None, "C:\\span.exe");
    assert_eq!(line, "\"C:\\span.exe\" run");
    let command = create_task_command(line);
    assert_eq!(command.program, "schtasks");
    assert_eq!(
        command.arguments,
        vec![
            "/Create", "/SC", "ONLOGON", "/TN", "Span", "/TR", "\"C:\\span.exe\" run", "/RL",
            "LIMITED", "/IT", "/F"
        ]
    );
}

#[test]
fn desktop_entry_runs_the_program() {
    assert_eq!(
        desktop_entry("/usr/bin/span"),
        "[Desktop Entry]\nType=Application\nName=span\nNoDisplay=true\nTerminal=false\nStartupNotify=false\nExec=/usr/bin/span run\nX-GNOME-Autostart-enabled=true\n"
    );
}

#[test]
fn xml_is_escaped_character_by_character() {
    assert_eq!(escape_xml("a&b<c>\"d\";&amp;"), "a&amp;b&lt;c&gt;&quot;d&quot;;&amp;amp;");
    assert_eq!(escape_xml(""), "");
}

#[test]
fn property_list_names_program_fingerprint_and_log() {
    let plist = launch_agent_plist("/App & Co/span", "12-34-56", "/log");
    let expected = r#"<?xml version="1.0" encoding="UTF-8"?>
<!DOCTYPE plist PUBLIC "-//Apple//DTD PLIST 1.0//EN" "http://www.apple.com/DTDs/PropertyList-1.0.dtd">
<plist version="1.0">
<dict>
  <key>Label</key>
  <string>com.span.daemon</string>
  <key>ProgramArguments</key>
  <array>
    <string>/App &amp; Co/span</string>
    <string>run</string>
  </array>
  <key>RunAtLoad</key>
  <true/>
  <key>KeepAlive</key>
  <true/>
  <key>ProcessType</key>
  <string>Background</string>
  <key>EnvironmentVariables</key>
  <dict>
    <key>SPAN_EXECUTABLE_FINGERPRINT</key>
    <string>12-34-56</string>
  </dict>
  <key>LimitLoadToSessionType</key>
  <string>Aqua</string>
  <key>ThrottleInterval</key>
  <integer>5</integer>
  <key>StandardOutPath</key>
  <string>/log</string>
  <key>StandardErrorPath</key>
  <string>/log</string>
</dict>
</plist>
"#;
    assert_eq!(plist, expected);
    assert!(!plist_changed(Some(expected), &plist));
    assert!(plist_changed(Some("old"), &plist));
    assert!(plist_changed(None, &plist));
}

#[test]
fn replaced_executable_changes_the_property_list() {
    let old = executable_fingerprint(1024, 1_700_000_000, 5);
    let new = executable_fingerprint(1024, 1_700_000_001, 5);
    assert_eq!(old, "1024-1700000000-5");
    assert_ne!(launch_agent_plist("/s", &old, "/l"), launch_agent_plist("/s", &new, "/l"));
}

#[test]
fn launchctl_is_called_for_the_users_session() {
    let service = launch_agent_service(501);
    assert_eq!(service, "gui/501/com.span.daemon");
    assert_eq!(kickstart_command(&service).arguments, vec!["kickstart", "gui/501/com.span.daemon"]);
    assert_eq!(print_command(&service).arguments, vec!["print", "gui/501/com.span.daemon"]);
    assert_eq!(
        bootstrap_command("gui/501", "/p.plist").arguments,
        vec!["bootstrap", "gui/501", "/p.plist"]
    );
}

/// Runs an installation on a launch agent that behaves as told.
fn run(changed: bool, states: &[LaunchAgentState], commands: &[bool]) -> (Vec<Action>, Action) {
    let (mut phase, mut action) = start_installation(changed);
    let mut actions = Vec::new();
    let mut state = 0;
    let mut command = 0;
    loop {
        actions.push(action);
        let event = match action {
            Action::Inspect => {
                state += 1;
                Event::State(states[state - 1])
            }
            Action::Bootout | Action::Bootstrap | Action::Kickstart => {
                command += 1;
                Event::Ended(commands[command - 1])
            }
            Action::Pause => Event::Paused,
            Action::Succeed | Action::Fail(_) => {
                assert_eq!(phase, Phase::Finished);
                return (actions, action);
            }
        };
        (phase, action) = advance(phase, event);
    }
}

#[test]
fn healthy_launch_agent_is_left_alone() {
    let (actions, end) = run(false, &[LaunchAgentState::Running], &[]);
    assert_eq!(actions, vec![Action::Inspect, Action::Succeed]);
    assert_eq!(end, Action::Succeed);
}

#[test]
fn changed_launch_agent_is_loaded_anew() {
    let states = [
        LaunchAgentState::Running,
        LaunchAgentState::NotLoaded,
        LaunchAgentState::Loaded,
        LaunchAgentState::Running,
    ];
    let (actions, end) = run(true, &states, &[true, true, true]);
    assert_eq!(
        actions,
        vec![
            Action::Inspect,
            Action::Bootout,
            Action::Inspect,
            Action::Bootstrap,
            Action::Kickstart,
            Action::Inspect,
            Action::Pause,
            Action::Inspect,
            Action::Succeed
        ]
    );
    assert_eq!(end, Action::Succeed);
}

#[test]
fn failures_of_the_installation_are_told_apart() {
    let loaded = LaunchAgentState::Loaded;
    let absent = LaunchAgentState::NotLoaded;
    let (_, end) = run(true, &[loaded, loaded], &[false]);
    assert_eq!(end, Action::Fail(Failure::Bootout));
    let (_, end) = run(false, &[absent, absent], &[false]);
    assert_eq!(end, Action::Fail(Failure::Bootstrap));
    let (_, end) = run(false, &[loaded], &[false]);
    assert_eq!(end, Action::Fail(Failure::Kickstart));
    let (actions, end) = run(false, &[loaded; 21], &[true]);
    assert_eq!(end, Action::Fail(Failure::NotRunning));
    assert_eq!(actions.iter().filter(|action| **action == Action::Pause).count(), 19);
    let (_, end) = run(false, &[absent, loaded, LaunchAgentState::Running], &[false, true]);
    assert_eq!(end, Action::Succeed);
    assert_eq!(start_process(), (Phase::Kicking, Action::Kickstart));
    assert_eq!(
        failure_text(Failure::Bootout, "exit status: 5"),
        "launchctl bootout failed with exit status: 5"
    );
    assert_eq!(
        failure_text(Failure::Bootstrap, "exit status: 5"),
        "launchctl bootstrap failed with exit status: 5"
    );
    assert_eq!(
        failure_text(Failure::Kickstart, "exit status: 5"),
        "launchctl kickstart failed with exit status: 5"
    );
    assert_eq!(
        failure_text(Failure::NotRunning, ""),
        "launchctl kickstart completed but span daemon is not running"
    );
}
