use span::device::{DeviceId, LocalDevice, Platform, TrustState};
use span::discovery::{
    announcement, collect_sighting, decode_datagram, decode_message, encode_packet,
    is_transient_udp_error, listen_step, scan_step, validate_public_key, DiscoveryMessage,
    DiscoveryPacket, ListenAction, ListenEvent, Sighting, DISCOVERY_PORT, PROBE_MAGIC,
};
use span::error::{Error, ErrorKind};
use span::network::{
    interface_target, local_broadcast_targets, network_targets, sending_outcome, subnet_broadcast,
    InterfaceAddress, Ipv4Addr, NO_TARGET,
};

fn packet(id: &str, name: &str) -> DiscoveryPacket {
    DiscoveryPacket {
        id: DeviceId::new(id).unwrap(),
        name: name.to_string(),
        platform: Platform::MacOs,
        public_key: "aa".repeat(32),
    }
}

fn listener() -> LocalDevice {
    LocalDevice {
        id: DeviceId::new("listener-device").unwrap(),
        name: "Listener".to_string(),
        platform: Platform::Linux,
        private_key: [0; 32],
        public_key: [1; 32],
    }
}

#[test]
fn packet_round_trip_preserves_device() {
    let packet = DiscoveryPacket {
        id: DeviceId::new("abc").unwrap(),
        name: "MacBook".to_string(),
        platform: Platform::MacOs,
        public_key: "aa".repeat(32),
    };

    assert_eq!(
        decode_message(&encode_packet(&packet)),
        Some(DiscoveryMessage::Announcement(packet))
    );
    assert_eq!(decode_message(PROBE_MAGIC), Some(DiscoveryMessage::Probe));
}

#[test]
fn calculates_directed_broadcast_address() {
    assert_eq!(
        subnet_broadcast(
            Ipv4Addr::new(192, 168, 31, 42),
            Ipv4Addr::new(255, 255, 255, 0)
        ),
        Ipv4Addr::new(192, 168, 31, 255)
    );
    assert_eq!(
        subnet_broadcast(Ipv4Addr::new(10, 4, 7, 8), Ipv4Addr::new(255, 255, 0, 0)),
        Ipv4Addr::new(10, 4, 255, 255)
    );
}

#[test]
fn unreachable_udp_peer_is_transient() {
    assert!(is_transient_udp_error(&Error::from(ErrorKind::HostUnreachable)));
    assert!(is_transient_udp_error(&Error::from(ErrorKind::ConnectionReset)));
    assert!(!is_transient_udp_error(&Error::from(ErrorKind::InvalidData)));
}

#[test]
fn only_some_udp_errors_are_transient() {
    for kind in [
        ErrorKind::WouldBlock,
        ErrorKind::TimedOut,
        ErrorKind::ConnectionRefused,
        ErrorKind::NetworkUnreachable,
    ] {
        assert!(is_transient_udp_error(&Error::from(kind)));
    }
    for kind in [ErrorKind::NotFound, ErrorKind::BrokenPipe, ErrorKind::Other] {
        assert!(!is_transient_udp_error(&Error::from(kind)));
    }
}

#[test]
fn announcement_has_five_fields() {
    let text = announcement(&listener());
    assert_eq!(
        text,
        format!("SPAN_DISCOVERY_V2\tlistener-device\tListener\tlinux\t{}", "01".repeat(32))
    );
    assert_eq!(DISCOVERY_PORT, 46792);
    assert!(matches!(
        decode_datagram(text.as_bytes()),
        Some(DiscoveryMessage::Announcement(_))
    ));
}

#[test]
fn name_stays_on_one_line() {
    let sent = packet("abc", "My\tMac\r\nBook");
    let Some(DiscoveryMessage::Announcement(read)) = decode_message(&encode_packet(&sent)) else {
        panic!("no announcement");
    };
    assert_eq!(read.name, "My Mac  Book");
    assert_eq!(read.public_key, sent.public_key);
}

#[test]
fn other_messages_are_ignored() {
    let key = "aa".repeat(32);
    assert_eq!(decode_message(""), None);
    assert_eq!(decode_message("SPAN_DISCOVERY_V2"), None);
    assert_eq!(decode_message(&format!("SPAN_DISCOVERY_V1\ta\tb\tlinux\t{key}")), None);
    assert_eq!(decode_message(&format!("SPAN_DISCOVERY_V2\t\tb\tlinux\t{key}")), None);
    assert_eq!(decode_message("SPAN_DISCOVERY_V2\ta\tb\tlinux\taabb"), None);
    assert_eq!(decode_message("SPAN_DISCOVERY_V2\ta\tb\tlinux"), None);
    assert_eq!(decode_datagram(&[0xff, 0xfe]), None);
    assert_eq!(
        decode_message(&format!(" {PROBE_MAGIC}\r\n")),
        Some(DiscoveryMessage::Probe)
    );
    let spare = format!("SPAN_DISCOVERY_V2\ta\tb\tplan9\t{key}\tmore\n");
    let Some(DiscoveryMessage::Announcement(read)) = decode_message(&spare) else {
        panic!("no announcement");
    };
    assert_eq!(read.platform, Platform::Unknown);
    assert_eq!(validate_public_key(&key), Some(key.clone()));
    assert_eq!(validate_public_key("aa"), None);
}

#[test]
fn discovered_device_is_not_trusted() {
    let info = packet("abc", "MacBook").into_device_info();
    assert_eq!(info.trust_state, TrustState::Discovered);
    assert_eq!(info.endpoint, None);
    assert_eq!(info.public_key, Some("aa".repeat(32)));
    let sighting = Sighting { packet: packet("abc", "MacBook"), endpoint: "10.0.0.7".to_string() };
    let seen = sighting.into_device_info();
    assert_eq!(seen.endpoint.as_deref(), Some("10.0.0.7"));
    assert_eq!(seen.trust_state, TrustState::Discovered);
    let local = DiscoveryPacket::from_local(&listener());
    assert_eq!(local.public_key, "01".repeat(32));
    assert_eq!(local.clone(), local);
}

#[test]
fn scan_collects_announcements_only() {
    let mut sightings: Vec<Sighting> = Vec::new();
    collect_sighting(&mut sightings, PROBE_MAGIC.as_bytes(), "10.0.0.1");
    collect_sighting(&mut sightings, b"noise", "10.0.0.2");
    collect_sighting(&mut sightings, encode_packet(&packet("a", "A")).as_bytes(), "10.0.0.3");
    collect_sighting(&mut sightings, encode_packet(&packet("a", "A")).as_bytes(), "10.0.0.4");
    assert_eq!(sightings.len(), 2);
    assert_eq!(sightings[0].endpoint, "10.0.0.3");
    assert_eq!(sightings[1].endpoint, "10.0.0.4");
}

#[test]
fn interfaces_give_their_broadcast_addresses() {
    let mask = Ipv4Addr::new(255, 255, 255, 0);
    let home = InterfaceAddress::V4 {
        ip: Ipv4Addr::new(192, 168, 1, 5),
        netmask: mask,
        broadcast: None,
    };
    let stated = InterfaceAddress::V4 {
        ip: Ipv4Addr::new(10, 0, 0, 5),
        netmask: mask,
        broadcast: Some(Ipv4Addr::new(10, 0, 255, 255)),
    };
    let loopback = InterfaceAddress::V4 {
        ip: Ipv4Addr::new(127, 0, 0, 1),
        netmask: mask,
        broadcast: None,
    };
    let unset = InterfaceAddress::V4 {
        ip: Ipv4Addr::new(10, 0, 0, 6),
        netmask: mask,
        broadcast: Some(Ipv4Addr::new(0, 0, 0, 0)),
    };
    assert_eq!(interface_target(&home), Some(Ipv4Addr::new(192, 168, 1, 255)));
    assert_eq!(interface_target(&stated), Some(Ipv4Addr::new(10, 0, 255, 255)));
    assert_eq!(interface_target(&loopback), None);
    assert_eq!(interface_target(&unset), None);
    assert_eq!(interface_target(&InterfaceAddress::V6), None);
    let all = [home, InterfaceAddress::V6, stated, home];
    assert_eq!(local_broadcast_targets(&all).len(), 3);
    assert_eq!(
        network_targets(&all),
        vec![
            Ipv4Addr::new(10, 0, 255, 255),
            Ipv4Addr::new(192, 168, 1, 255),
            Ipv4Addr::new(255, 255, 255, 255)
        ]
    );
    assert_eq!(network_targets(&[]), vec![Ipv4Addr::new(255, 255, 255, 255)]);
    assert!(Ipv4Addr::new(127, 9, 9, 9).is_loopback());
    assert!(Ipv4Addr::new(0, 0, 0, 0).is_unspecified());
}

#[test]
fn one_successful_send_is_enough() {
    assert_eq!(sending_outcome(vec![Err("a"), Ok(()), Err("b")], NO_TARGET), Ok(()));
    assert_eq!(sending_outcome(vec![Err("a"), Err("b")], NO_TARGET), Err("b"));
    assert_eq!(sending_outcome(vec![], NO_TARGET), Err("no IPv4 broadcast target found"));
}

#[test]
fn announcement_is_read_strictly() {
    let text = encode_packet(&packet("abc", "MacBook"));
    let read = Some(DiscoveryMessage::Announcement(packet("abc", "MacBook")));
    assert_eq!(decode_message(&format!(" \t\r\n{text}\n \u{3000}")), read);
    assert_eq!(decode_message(&format!("\n{PROBE_MAGIC} ")), Some(DiscoveryMessage::Probe));
    for bytes in [0, 1, 31, 33, 64] {
        let mut other = packet("abc", "MacBook");
        other.public_key = "aa".repeat(bytes);
        assert_eq!(decode_message(&format!(" {} ", encode_packet(&other))), None);
    }
    for start in ["", " ", "SPAN_DISCOVERY_V1", "span_discovery_v2", PROBE_MAGIC] {
        let other = text.replacen("SPAN_DISCOVERY_V2", start, 1);
        assert_eq!(decode_message(&other), None);
    }
    let shifted = text.replacen("SPAN_DISCOVERY_V2\tabc", "\tSPAN_DISCOVERY_V2", 1);
    assert_eq!(decode_message(&shifted), None);
}

#[test]
fn listening_ends_with_a_lasting_failure_only() {
    let text = encode_packet(&packet("abc", "MacBook"));
    assert_eq!(
        listen_step(ListenEvent::Datagram(text.as_bytes())),
        ListenAction::HandOn(DiscoveryMessage::Announcement(packet("abc", "MacBook")))
    );
    assert_eq!(listen_step(ListenEvent::Datagram(&[0xff])), ListenAction::Listen);
    assert_eq!(listen_step(ListenEvent::Handled(true)), ListenAction::Listen);
    assert_eq!(listen_step(ListenEvent::Handled(false)), ListenAction::ReportMessage);
    assert_eq!(
        listen_step(ListenEvent::Failed(Error::from(ErrorKind::ConnectionReset))),
        ListenAction::ReportFailure
    );
    assert_eq!(
        listen_step(ListenEvent::Failed(Error::from(ErrorKind::InvalidData))),
        ListenAction::Stop
    );
}

#[test]
fn scan_goes_on_after_a_transient_failure() {
    let mut sightings = Vec::new();
    let text = encode_packet(&packet("abc", "MacBook"));
    assert!(scan_step(&mut sightings, Ok((text.as_bytes(), "10.0.0.2"))).is_ok());
    assert!(scan_step(&mut sightings, Err(Error::from(ErrorKind::TimedOut))).is_ok());
    assert_eq!(sightings.len(), 1);
    assert_eq!(sightings[0].endpoint, "10.0.0.2");
    let failure = scan_step(&mut sightings, Err(Error::from(ErrorKind::Other))).unwrap_err();
    assert_eq!(failure.kind, ErrorKind::Other);
    assert_eq!(sightings.len(), 1);
}
