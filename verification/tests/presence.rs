use span::device::{DeviceId, DeviceInfo, LocalDevice, Platform, TrustState};
use span::delivery::{
    accepted_device, broadcast_failed, deliveries, delivery_packet, hold_pending, pairing_accept,
    pairing_address, retry_endpoints, retry_step, settle_pending, Delivery, RetryAction,
};
use span::discovery::{DiscoveryPacket, Sighting};
use span::error::ErrorKind;
use span::presence::{note_announcement, refresh_trusted_endpoints, scan_devices, Notice};
use span::trust_store::TrustStore;

fn sighting(id: &str, name: &str, key: &str, endpoint: &str) -> Sighting {
    Sighting {
        packet: DiscoveryPacket {
            id: DeviceId::new(id).unwrap(),
            name: name.to_string(),
            platform: Platform::Android,
            public_key: key.repeat(32),
        },
        endpoint: endpoint.to_string(),
    }
}

fn line(id: &str, name: &str, state: &str, endpoint: &str, key: &str) -> String {
    format!("{id}\t{name}\tandroid\t{state}\t{endpoint}\t{}\n", key.repeat(32))
}

fn local() -> LocalDevice {
    let (private_key, public_key) = span::crypto::keypair_of([3; 32]);
    LocalDevice {
        id: DeviceId::new("me").unwrap(),
        name: "Me".to_string(),
        platform: Platform::Linux,
        private_key,
        public_key,
    }
}

#[test]
fn own_announcement_is_ignored() {
    let me = DeviceId::new("me").unwrap();
    assert!(note_announcement("", &me, sighting("me", "Me", "aa", "10.0.0.1")).is_none());
}

#[test]
fn new_device_is_asked_about_once() {
    let me = DeviceId::new("me").unwrap();
    let first = note_announcement("", &me, sighting("p", "Phone", "aa", "10.0.0.2")).unwrap();
    assert_eq!(first.notice, Notice::PairingRequest);
    assert!(!first.trusted_now);
    assert_eq!(first.info.endpoint.as_deref(), Some("10.0.0.2"));
    let contents = first.contents.unwrap();
    assert_eq!(contents, line("p", "Phone", "pending", "10.0.0.2", "aa"));
    let again = note_announcement(&contents, &me, sighting("p", "Phone", "aa", "10.0.0.2")).unwrap();
    assert_eq!(again.notice, Notice::Nothing);
    assert!(again.contents.is_none());
}

#[test]
fn trusted_device_at_a_new_address_is_followed() {
    let me = DeviceId::new("me").unwrap();
    let contents = line("p", "Phone", "trusted", "10.0.0.2", "aa");
    let noted = note_announcement(&contents, &me, sighting("p", "Phone", "aa", "10.0.0.9")).unwrap();
    assert!(noted.trusted_now);
    assert_eq!(noted.contents.unwrap(), line("p", "Phone", "trusted", "10.0.0.9", "aa"));
    let refreshed =
        refresh_trusted_endpoints(&contents, &[sighting("p", "Phone", "aa", "10.0.0.8")]).unwrap();
    assert_eq!(refreshed, line("p", "Phone", "trusted", "10.0.0.8", "aa"));
}

#[test]
fn record_moves_the_address_before_the_update_looks() {
    let me = DeviceId::new("me").unwrap();
    let contents = line("p", "Phone", "trusted", "10.0.0.2", "aa");
    let noted = note_announcement(&contents, &me, sighting("p", "Phone", "aa", "10.0.0.9")).unwrap();
    assert_eq!(noted.notice, Notice::Nothing);
    let keyless = "p\tPhone\tandroid\ttrusted\t10.0.0.2\t\n";
    let keyed = note_announcement(keyless, &me, sighting("p", "Phone", "aa", "10.0.0.2")).unwrap();
    assert!(keyed.trusted_now);
    assert_eq!(keyed.contents.unwrap(), line("p", "Phone", "trusted", "10.0.0.2", "aa"));
}

#[test]
fn announcement_gives_no_trust() {
    let me = DeviceId::new("me").unwrap();
    let contents = line("p", "Phone", "revoked", "10.0.0.2", "aa");
    let noted = note_announcement(&contents, &me, sighting("p", "Phone", "aa", "10.0.0.9")).unwrap();
    assert!(!noted.trusted_now);
    assert_eq!(noted.notice, Notice::Nothing);
    assert_eq!(noted.contents.unwrap(), line("p", "Phone", "revoked", "10.0.0.9", "aa"));
}

#[test]
fn only_trusted_addresses_are_refreshed() {
    let contents = [
        line("t", "Trusted", "trusted", "10.0.0.2", "aa"),
        line("d", "Seen", "discovered", "10.0.0.3", "bb"),
    ]
    .concat();
    let sightings = [
        sighting("d", "Seen", "bb", "10.0.0.30"),
        sighting("other-id", "Trusted", "aa", "10.0.0.20"),
    ];
    let expected = [
        line("t", "Trusted", "trusted", "10.0.0.20", "aa"),
        line("d", "Seen", "discovered", "10.0.0.3", "bb"),
    ]
    .concat();
    assert_eq!(refresh_trusted_endpoints(&contents, &sightings).unwrap(), expected);
    assert_eq!(refresh_trusted_endpoints(&contents, &[]), None);
    assert_eq!(refresh_trusted_endpoints(&contents, &sightings[..1]), None);
}

#[test]
fn scan_returns_what_is_on_the_network() {
    let me = DeviceId::new("me").unwrap();
    let contents = line("away", "Away", "trusted", "10.0.0.2", "aa");
    let sightings = [
        sighting("me", "Me", "cc", "10.0.0.1"),
        sighting("new", "New", "bb", "10.0.0.3"),
        sighting("new", "New", "bb", "10.0.0.4"),
    ];
    let (found, write) = scan_devices(&contents, &me, &sightings);
    assert_eq!(found.len(), 1);
    assert_eq!(found[0].id.as_str(), "new");
    assert_eq!(found[0].endpoint.as_deref(), Some("10.0.0.4"));
    assert_eq!(found[0].trust_state, TrustState::Discovered);
    let written = write.unwrap();
    assert_eq!(
        written,
        [contents.clone(), line("new", "New", "discovered", "10.0.0.4", "bb")].concat()
    );
    let (none, nothing) = scan_devices(&contents, &me, &[]);
    assert!(none.is_empty());
    assert!(nothing.is_none());
}

#[test]
fn text_goes_to_trusted_devices_that_can_be_reached() {
    let contents = [
        line("t", "Trusted", "trusted", "10.0.0.2", "aa"),
        line("d", "Seen", "discovered", "10.0.0.3", "bb"),
        line("r", "Removed", "revoked", "10.0.0.4", "cc"),
        "o\tOffline\tandroid\ttrusted\t\t\n".to_string(),
        line("u", "Unaddressed", "trusted", "", "dd"),
    ]
    .concat();
    let (store, _) = TrustStore::load(&contents);
    let targets = deliveries(&store);
    assert_eq!(targets.len(), 1);
    assert_eq!(targets[0].id.as_str(), "t");
    assert_eq!(targets[0].name, "Trusted");
    assert_eq!(targets[0].endpoint, "10.0.0.2");
    assert_eq!(targets[0].public_key, "aa".repeat(32));
}

#[test]
fn delivered_text_opens_for_its_receiver() {
    let (private, public) = span::crypto::keypair_of([4; 32]);
    let to = Delivery {
        id: DeviceId::new("t").unwrap(),
        name: "T".to_string(),
        endpoint: "10.0.0.2".to_string(),
        public_key: span::hex::encode_hex(&public),
    };
    let me = local();
    let packet = delivery_packet(&me, &to, "hi").unwrap();
    assert_eq!(packet.from.as_str(), "me");
    let text = span::transport::decrypt_text(&packet, &private, &me.public_key_hex()).unwrap();
    assert_eq!(text, "hi");
}

#[test]
fn pending_text_is_kept_until_it_has_arrived() {
    let mut pending: Option<String> = None;
    hold_pending(&mut pending, "one");
    settle_pending(&mut pending, "one", true);
    assert_eq!(pending.as_deref(), Some("one"));
    hold_pending(&mut pending, "two");
    settle_pending(&mut pending, "one", false);
    assert_eq!(pending.as_deref(), Some("two"));
    settle_pending(&mut pending, "two", false);
    assert_eq!(pending, None);
    assert!(!broadcast_failed(&[]));
    assert!(!broadcast_failed(&[true, true]));
    assert!(broadcast_failed(&[true, false]));
}

#[test]
fn failed_delivery_is_tried_where_the_device_is_seen() {
    let to = Delivery {
        id: DeviceId::new("t").unwrap(),
        name: "T".to_string(),
        endpoint: "10.0.0.2".to_string(),
        public_key: "aa".repeat(32),
    };
    let sightings = [
        sighting("t", "T", "bb", "10.0.0.5"),
        sighting("x", "X", "bb", "10.0.0.6"),
        sighting("y", "Y", "aa", "10.0.0.7"),
    ];
    assert_eq!(retry_endpoints(&sightings, &to), vec!["10.0.0.5", "10.0.0.7"]);
}

#[test]
fn pairing_needs_an_address_and_a_key() {
    let mut device = DeviceInfo {
        id: DeviceId::new("t").unwrap(),
        name: "T".to_string(),
        platform: Platform::Android,
        trust_state: TrustState::Trusted,
        endpoint: None,
        public_key: None,
    };
    let me = local();
    let offline = pairing_accept(&me, &device).unwrap_err();
    assert_eq!((offline.kind, offline.message), (ErrorKind::AddrNotAvailable, "device is offline"));
    device.endpoint = Some("10.0.0.2".to_string());
    let keyless = pairing_accept(&me, &device).unwrap_err();
    assert_eq!((keyless.kind, keyless.message), (ErrorKind::InvalidData, "device key is missing"));
    let (private, public) = span::crypto::keypair_of([4; 32]);
    device.public_key = Some(span::hex::encode_hex(&public));
    assert_eq!(pairing_address(&device).unwrap().0, "10.0.0.2");
    let (endpoint, packet) = pairing_accept(&me, &device).unwrap();
    assert_eq!(endpoint, "10.0.0.2");
    let text = span::transport::decrypt_text(&packet, &private, &me.public_key_hex()).unwrap();
    assert_eq!(text, "\0SPAN_PAIR_ACCEPT_V1\0");
    device.public_key = Some("aa".to_string());
    assert_eq!(pairing_accept(&me, &device).unwrap_err().message, "bad public key");
}

#[test]
fn only_trusted_devices_learn_that_they_were_accepted() {
    let contents = [
        line("t", "Trusted", "trusted", "10.0.0.2", "aa"),
        line("d", "Seen", "discovered", "10.0.0.3", "bb"),
    ]
    .concat();
    let (store, _) = TrustStore::load(&contents);
    let id = DeviceId::new("t").unwrap();
    assert_eq!(accepted_device(&store, &id).unwrap().name, "Trusted");
    let error = accepted_device(&store, &DeviceId::new("d").unwrap()).unwrap_err();
    assert_eq!((error.kind, error.message), (ErrorKind::NotFound, "trusted device not found"));
}

#[test]
fn retrying_stops_with_the_first_arrival() {
    let endpoints = ["10.0.0.2".to_string(), "10.0.0.3".to_string()];
    assert_eq!(retry_step(&endpoints, 0, false), RetryAction::Try("10.0.0.2"));
    assert_eq!(retry_step(&endpoints, 1, false), RetryAction::Try("10.0.0.3"));
    assert_eq!(retry_step(&endpoints, 1, true), RetryAction::Delivered);
    assert_eq!(retry_step(&endpoints, 2, false), RetryAction::GiveUp);
    assert_eq!(retry_step(&endpoints, 2, true), RetryAction::Delivered);
    assert_eq!(retry_step(&[], 0, false), RetryAction::GiveUp);
}

#[test]
fn sighted_device_is_followed_by_identifier_or_key() {
    let keyless = "p\tPhone\tandroid\ttrusted\t10.0.0.2\t\n";
    let by_id = [sighting("p", "Phone", "aa", "10.0.0.9")];
    assert_eq!(
        refresh_trusted_endpoints(keyless, &by_id).unwrap(),
        line("p", "Phone", "trusted", "10.0.0.9", "aa")
    );
    let keyed = line("p", "Phone", "trusted", "10.0.0.2", "aa");
    let by_key = [sighting("q", "Other", "aa", "10.0.0.9")];
    assert_eq!(
        refresh_trusted_endpoints(&keyed, &by_key).unwrap(),
        line("p", "Phone", "trusted", "10.0.0.9", "aa")
    );
    let against = [sighting("p", "Phone", "bb", "10.0.0.9")];
    assert_eq!(refresh_trusted_endpoints(&keyed, &against), None);
}
