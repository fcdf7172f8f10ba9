use span::commands::{
    accept_choice, argument_text, command, command_named, daemon_lines, devices_lines,
    discover_lines, host_peer, labelled_line, pairing_arguments, revoke_request, send_request,
    sent_line, state_label, status_lines, trust_request, trusted_described_line, trusted_line,
    window_request, AcceptChoice, CommandName, HostPeer, TrustRequest, WindowRequest, HELP,
};
use span::device::{
    parse_platform, platform_name, sanitize, DeviceId, DeviceInfo, LocalDevice, Platform,
    TrustState,
};
use span::error::ErrorKind;

fn device(id: &str, name: &str, state: TrustState) -> DeviceInfo {
    DeviceInfo {
        id: DeviceId::new(id).unwrap(),
        name: name.to_string(),
        platform: Platform::Linux,
        trust_state: state,
        endpoint: None,
        public_key: None,
    }
}

fn words(arguments: &[&str]) -> Vec<String> {
    arguments.iter().map(|word| word.to_string()).collect()
}

#[test]
fn commands_have_names() {
    let names = [
        ("install", CommandName::Install),
        ("start", CommandName::Start),
        ("stop", CommandName::Stop),
        ("restart", CommandName::Restart),
        ("discover", CommandName::Discover),
        ("accept", CommandName::Accept),
        ("send", CommandName::Send),
        ("help", CommandName::Help),
        ("--help", CommandName::Help),
        ("-h", CommandName::Help),
        ("run", CommandName::Run),
        ("foreground", CommandName::Run),
        ("status", CommandName::Status),
        ("devices", CommandName::Devices),
        ("trust", CommandName::Trust),
        ("revoke", CommandName::Revoke),
        ("reset", CommandName::Reset),
        ("announce", CommandName::Announce),
        ("clip-read", CommandName::ClipRead),
        ("clip-write", CommandName::ClipWrite),
        ("send-text", CommandName::SendText),
        ("receive-once", CommandName::ReceiveOnce),
        ("uninstall", CommandName::Uninstall),
        ("gui", CommandName::Gui),
        ("ui", CommandName::Gui),
        ("open", CommandName::Gui),
        ("Install", CommandName::Unknown),
        ("", CommandName::Unknown),
    ];
    for (word, name) in names {
        assert_eq!(command_named(word), name);
        assert_eq!(command(Some(word)), name);
    }
    assert_eq!(command(None), CommandName::Gui);
    assert_eq!(HELP.lines().count(), 10);
    assert!(HELP.starts_with("Span - cross-device clipboard\n\n  span   "));
}

#[test]
fn device_is_trusted_by_identifier_or_by_description() {
    assert_eq!(trust_request(&[]).unwrap(), TrustRequest::Usage);
    assert_eq!(trust_request(&words(&["a", "b"])).unwrap(), TrustRequest::Usage);
    assert_eq!(
        trust_request(&words(&["a", "b", "c", "d", "e", "f"])).unwrap(),
        TrustRequest::Usage
    );
    assert_eq!(
        trust_request(&words(&["abc"])).unwrap(),
        TrustRequest::Known(DeviceId::new("abc").unwrap())
    );
    let key = "AB".repeat(32);
    assert_eq!(
        trust_request(&words(&["abc", "Phone", "android", "10.0.0.2", &key])).unwrap(),
        TrustRequest::Described {
            id: DeviceId::new("abc").unwrap(),
            name: "Phone".to_string(),
            platform: Platform::Android,
            endpoint: Some("10.0.0.2".to_string()),
            public_key: Some("ab".repeat(32)),
        }
    );
    assert_eq!(
        trust_request(&words(&["abc", "Phone", "toaster"])).unwrap(),
        TrustRequest::Described {
            id: DeviceId::new("abc").unwrap(),
            name: "Phone".to_string(),
            platform: Platform::Unknown,
            endpoint: None,
            public_key: None,
        }
    );
}

#[test]
fn bad_descriptions_are_told_apart() {
    let failure = |arguments: &[&str]| {
        let error = trust_request(&words(arguments)).unwrap_err();
        assert_eq!(error.kind, ErrorKind::InvalidInput);
        error.message
    };
    assert_eq!(failure(&[""]), "empty device id");
    assert_eq!(failure(&["", "n", "linux"]), "empty device id");
    assert_eq!(failure(&["a", "n", "linux", "h", "xyz"]), "bad public key hex");
    assert_eq!(failure(&["a", "n", "linux", "h", "aa"]), "bad public key length");
    assert_eq!(failure(&["a", "n", "linux", "h", ""]), "bad public key length");
}

#[test]
fn lines_name_devices() {
    let id = DeviceId::new("abc").unwrap();
    assert_eq!(trusted_line("Phone", &id), "trusted: Phone (abc)");
    assert_eq!(labelled_line("revoked: ", &id), "revoked: abc");
    assert_eq!(
        trusted_described_line("Phone", Platform::Android, &None),
        "trusted: Phone (android)"
    );
    assert_eq!(
        trusted_described_line("Phone", Platform::Android, &Some("10.0.0.2".to_string())),
        "trusted: Phone (android) at 10.0.0.2"
    );
    assert_eq!(revoke_request(None), None);
    assert_eq!(revoke_request(Some("")), None);
    assert_eq!(revoke_request(Some("abc")), Some(id));
    assert_eq!(sent_line(12), "Sent to 12 trusted device(s).");
}

#[test]
fn discovery_lists_devices_with_their_states() {
    assert_eq!(discover_lines(&[]), vec!["No Span devices found on this network."]);
    let all = [
        device("a", "A", TrustState::Trusted),
        device("b", "B", TrustState::Revoked),
    ];
    assert_eq!(
        discover_lines(&all),
        vec![
            "Found 2 device(s):",
            "  1. A (linux) - Trusted",
            "  2. B (linux) - Removed",
            "",
            "Accept a new device with: span accept <number>"
        ]
    );
    assert_eq!(
        discover_lines(&all[..1]),
        vec!["Found 1 device(s):", "  1. A (linux) - Trusted"]
    );
    assert_eq!(state_label(TrustState::Blocked), "Blocked");
    assert_eq!(state_label(TrustState::Pending), "Pending");
    assert_eq!(state_label(TrustState::Discovered), "New");
}

#[test]
fn waiting_device_is_selected_by_number_or_identifier() {
    let all = [
        device("t", "T", TrustState::Trusted),
        device("a", "A", TrustState::Discovered),
        device("1", "B", TrustState::Pending),
        device("9", "C", TrustState::Revoked),
    ];
    let name = |selection: Option<&str>| match accept_choice(&all, selection) {
        AcceptChoice::Selected(device) => Some(device.name),
        AcceptChoice::NotFound => None,
        _ => panic!("neither selected nor missing"),
    };
    assert_eq!(name(Some("1")).as_deref(), Some("A"));
    assert_eq!(name(Some("+2")).as_deref(), Some("B"));
    assert_eq!(name(Some("9")).as_deref(), Some("C"));
    assert_eq!(name(Some("a")).as_deref(), Some("A"));
    assert_eq!(name(Some("0")), None);
    assert_eq!(name(Some("t")), None);
    let AcceptChoice::List(lines) = accept_choice(&all, None) else {
        panic!("no list");
    };
    assert_eq!(lines, vec!["  1. A (linux)", "  2. B (linux)", "  3. C (linux)"]);
    assert!(matches!(accept_choice(&all[..1], None), AcceptChoice::NoneWaiting));
    assert!(matches!(accept_choice(&all[..1], Some("1")), AcceptChoice::NoneWaiting));
    let AcceptChoice::Selected(only) = accept_choice(&all[..2], None) else {
        panic!("not selected");
    };
    assert_eq!(only.id.as_str(), "a");
}

#[test]
fn words_are_joined_to_a_text() {
    assert_eq!(argument_text(&[]), None);
    assert_eq!(argument_text(&words(&["a", "", "b"])).as_deref(), Some("a  b"));
    assert_eq!(send_request(&words(&["host"])), None);
    assert_eq!(send_request(&[]), None);
    assert_eq!(
        send_request(&words(&["host", "a", "b"])),
        Some(("host".to_string(), "a b".to_string()))
    );
}

#[test]
fn host_is_that_of_a_trusted_device() {
    let mut one = device("a", "A", TrustState::Discovered);
    one.endpoint = Some("10.0.0.2".to_string());
    one.public_key = Some("aa".to_string());
    assert_eq!(host_peer(&[one.clone()], "10.0.0.2"), HostPeer::NotFound);
    one.trust_state = TrustState::Trusted;
    assert_eq!(host_peer(&[one.clone()], "10.0.0.2"), HostPeer::Key("aa".to_string()));
    assert_eq!(host_peer(&[one.clone()], "10.0.0.3"), HostPeer::NotFound);
    one.public_key = None;
    assert_eq!(host_peer(&[one], "10.0.0.2"), HostPeer::MissingKey("A".to_string()));
}

#[test]
fn status_and_devices_are_printed() {
    let local = LocalDevice {
        id: DeviceId::new("me").unwrap(),
        name: "Mine".to_string(),
        platform: Platform::Windows,
        private_key: [0; 32],
        public_key: [0xab; 32],
    };
    assert_eq!(
        status_lines(&local.clone(), 2),
        vec![
            "span: ready".to_string(),
            "device: Mine (me)".to_string(),
            "platform: windows".to_string(),
            format!("public key: {}", "ab".repeat(32)),
            "trusted targets: 2".to_string()
        ]
    );
    assert_eq!(
        daemon_lines(&local, 0, 46793),
        vec![
            "span daemon",
            "device : Mine (me)",
            "mode   : background-only, no main window",
            "policy : broadcast text to trusted devices only",
            "targets: 0 trusted",
            "listen : 0.0.0.0:46793"
        ]
    );
    assert_eq!(
        devices_lines(&[], 0),
        vec!["trusted broadcast targets: 0", "no devices yet"]
    );
    let mut one = device("a", "A", TrustState::Trusted);
    one.endpoint = Some("10.0.0.2".to_string());
    let two = device("b", "B", TrustState::Revoked);
    assert_eq!(
        devices_lines(&[one, two], 1),
        vec![
            "trusted broadcast targets: 1",
            "- a\tA\tlinux\tTrusted\t10.0.0.2",
            "- b\tB\tlinux\tRevoked\t-"
        ]
    );
}

#[test]
fn window_is_opened_for_a_device_or_for_all() {
    assert_eq!(window_request(&[]).unwrap(), WindowRequest::Manage);
    assert_eq!(window_request(&words(&["--hidden"])).unwrap(), WindowRequest::Manage);
    let error = window_request(&words(&["pair"])).unwrap_err();
    assert_eq!((error.kind, error.message), (ErrorKind::InvalidInput, "missing device id"));
    assert_eq!(
        window_request(&words(&["pair", "x"])).unwrap(),
        WindowRequest::Pair {
            id: "x".to_string(),
            name: "Span device".to_string(),
            platform: "unknown".to_string(),
        }
    );
    let arguments = pairing_arguments(&device("x", "Laptop", TrustState::Discovered));
    assert_eq!(arguments, vec!["pair", "x", "Laptop", "linux"]);
    assert_eq!(
        window_request(&arguments).unwrap(),
        WindowRequest::Pair {
            id: "x".to_string(),
            name: "Laptop".to_string(),
            platform: "linux".to_string(),
        }
    );
}

#[test]
fn platforms_have_names() {
    for platform in [
        Platform::MacOs,
        Platform::Windows,
        Platform::Linux,
        Platform::Android,
        Platform::Unknown,
    ] {
        assert_eq!(parse_platform(platform_name(platform)), platform);
    }
    assert_eq!(platform_name(Platform::MacOs), "macos");
    assert_eq!(parse_platform("MacOS"), Platform::Unknown);
    assert_eq!(sanitize("a\tb\nc\rd e"), "a b c d e");
    assert!(DeviceId::new("").is_none());
}
