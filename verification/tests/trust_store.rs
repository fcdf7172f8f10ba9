use span::device::{DeviceId, DeviceInfo, Platform, TrustState};
use span::error::{Error, ErrorKind};
use span::trust_store::{
    after_unlock, non_empty_string, parse_devices, parse_trust_state, serialize_devices,
    stored_contents, trust_state_name, Commit, TrustStore,
};

/// The file of a store.
struct File {
    contents: String,
}

impl File {
    fn new() -> File {
        File { contents: String::new() }
    }

    fn load(&mut self) -> TrustStore {
        let (store, rewrite) = TrustStore::load(&self.contents);
        if let Some(text) = rewrite {
            self.contents = text;
        }
        store
    }

    fn write(&mut self, commit: Commit) -> bool {
        if let Some(text) = commit.contents {
            self.contents = text;
        }
        commit.value
    }

    fn trust(
        &mut self,
        store: &mut TrustStore,
        id: &str,
        name: &str,
        platform: Platform,
        endpoint: Option<&str>,
        key: Option<String>,
    ) {
        self.contents = store.trust(
            &self.contents,
            id_of(id),
            name.to_string(),
            platform,
            endpoint.map(|text| text.to_string()),
            key,
        );
    }

    fn trust_existing(&mut self, store: &mut TrustStore, id: &str) -> bool {
        let commit = store.trust_existing(&self.contents, &id_of(id));
        self.write(commit)
    }

    fn revoke(&mut self, store: &mut TrustStore, id: &str) -> bool {
        let commit = store.revoke(&self.contents, &id_of(id));
        self.write(commit)
    }

    fn record(&mut self, store: &mut TrustStore, device: DeviceInfo) -> bool {
        let commit = store.record_discovered(&self.contents, device);
        self.write(commit)
    }

    fn mark(&mut self, store: &mut TrustStore, device: &DeviceInfo) -> bool {
        let commit = store.mark_pairing_prompted(&self.contents, device);
        self.write(commit)
    }

    fn update(&mut self, store: &mut TrustStore, id: &str, endpoint: &str, key: String) -> bool {
        let commit =
            store.update_endpoint_and_key(&self.contents, &id_of(id), endpoint.to_string(), key);
        self.write(commit)
    }

    fn compact(&mut self, store: &mut TrustStore) -> bool {
        let commit = store.compact(&self.contents);
        self.write(commit)
    }
}

fn id_of(text: &str) -> DeviceId {
    DeviceId::new(text).unwrap()
}

fn seen(id: &str, name: &str, platform: Platform, endpoint: &str, key: String) -> DeviceInfo {
    DeviceInfo {
        id: id_of(id),
        name: name.to_string(),
        platform,
        trust_state: TrustState::Discovered,
        endpoint: Some(endpoint.to_string()),
        public_key: Some(key),
    }
}

#[test]
fn persists_trusted_devices() {
    let mut file = File::new();

    let mut store = file.load();
    file.trust(
        &mut store,
        "abc",
        "MacBook",
        Platform::MacOs,
        Some("127.0.0.1"),
        Some("aa".repeat(32)),
    );

    let loaded = file.load();
    assert_eq!(loaded.trusted_devices().len(), 1);
    assert_eq!(loaded.trusted_devices()[0].name, "MacBook");
    assert_eq!(loaded.trusted_devices()[0].endpoint.as_deref(), Some("127.0.0.1"));
    assert_eq!(
        loaded.trusted_devices()[0].public_key.as_deref(),
        Some(&"aa".repeat(32)[..])
    );
}

#[test]
fn revoked_devices_stop_receiving() {
    let mut file = File::new();

    let mut store = file.load();
    file.trust(
        &mut store,
        "abc",
        "MacBook",
        Platform::MacOs,
        Some("127.0.0.1"),
        Some("aa".repeat(32)),
    );
    assert!(file.revoke(&mut store, "abc"));

    let loaded = file.load();
    assert!(loaded.trusted_devices().is_empty());
}

#[test]
fn rediscovery_refreshes_revoked_device_for_manual_repairing() {
    let mut file = File::new();
    let key = "aa".repeat(32);
    let mut store = file.load();
    file.trust(
        &mut store,
        "abc",
        "MacBook",
        Platform::MacOs,
        Some("192.168.1.2"),
        Some(key.clone()),
    );
    file.revoke(&mut store, "abc");

    assert!(file.record(
        &mut store,
        seen("abc", "MacBook", Platform::MacOs, "192.168.1.9", key)
    ));
    let device = store.device(&id_of("abc")).unwrap();
    assert_eq!(device.trust_state, TrustState::Revoked);
    assert_eq!(device.endpoint.as_deref(), Some("192.168.1.9"));
    assert!(file.trust_existing(&mut store, "abc"));
    assert!(store.trusted_device(&id_of("abc")).is_some());
}

#[test]
fn updates_only_trusted_device_endpoint() {
    let mut file = File::new();

    let mut store = file.load();
    file.trust(&mut store, "trusted", "MacBook", Platform::MacOs, None, None);

    assert!(file.update(&mut store, "trusted", "192.168.1.23", "aa".repeat(32)));
    assert!(file.update(&mut store, "unknown", "192.168.1.24", "aa".repeat(32)));
    assert!(!file.update(&mut store, "unknown", "192.168.1.25", "bb".repeat(32)));

    let loaded = file.load();
    assert_eq!(loaded.trusted_devices()[0].endpoint.as_deref(), Some("192.168.1.24"));
    assert_eq!(
        loaded.trusted_devices()[0].public_key.as_deref(),
        Some(&"aa".repeat(32)[..])
    );
}

#[test]
fn trust_lookup_requires_trusted_state() {
    let mut file = File::new();

    let mut store = file.load();
    file.trust(&mut store, "trusted", "MacBook", Platform::MacOs, None, None);
    file.trust(&mut store, "revoked", "Old PC", Platform::Windows, None, None);
    file.revoke(&mut store, "revoked");

    assert!(store.trusted_device(&id_of("trusted")).is_some());
    assert!(store.trusted_device(&id_of("revoked")).is_none());
    assert!(store.trusted_device(&id_of("unknown")).is_none());
}

#[test]
fn discovery_keeps_existing_trust_state() {
    let mut file = File::new();

    let mut store = file.load();
    file.trust(
        &mut store,
        "trusted",
        "Phone",
        Platform::Android,
        Some("192.168.1.10"),
        Some("aa".repeat(32)),
    );

    file.record(
        &mut store,
        seen("trusted", "Phone", Platform::Android, "192.168.1.11", "aa".repeat(32)),
    );

    assert!(store.trusted_device(&id_of("trusted")).is_some());
    assert_eq!(
        store.trusted_device(&id_of("trusted")).unwrap().endpoint.as_deref(),
        Some("192.168.1.11")
    );
}

#[test]
fn discovery_keeps_same_name_new_key_as_new_device() {
    let mut file = File::new();

    let mut store = file.load();
    file.trust(
        &mut store,
        "old-phone",
        "Phone",
        Platform::Android,
        Some("192.168.1.10"),
        Some("aa".repeat(32)),
    );

    file.record(
        &mut store,
        seen("new-phone", "Phone", Platform::Android, "192.168.1.11", "bb".repeat(32)),
    );

    assert_eq!(store.devices().len(), 2);
    assert_eq!(store.trusted_devices().len(), 1);
    assert!(store
        .devices()
        .iter()
        .any(|device| device.id.as_str() == "new-phone"
            && device.trust_state == TrustState::Discovered));
}

#[test]
fn pairing_prompt_is_persistently_limited_to_once_per_advertised_device() {
    let mut file = File::new();

    let mut store = file.load();
    let first = seen("phone-1", "Phone", Platform::Android, "192.168.1.10", "aa".repeat(32));
    file.record(&mut store, first.clone());
    assert!(file.mark(&mut store, &first));
    assert!(!file.mark(&mut store, &first));

    // Reinstalling the peer can change both id and key. It is still the same
    // advertised device to the user and must not trigger another unsolicited
    // system prompt.
    let replaced_identity = DeviceInfo {
        id: id_of("phone-2"),
        public_key: Some("bb".repeat(32)),
        ..first
    };
    file.record(&mut store, replaced_identity.clone());
    assert!(!file.mark(&mut store, &replaced_identity));

    let reloaded = file.load();
    assert_eq!(
        reloaded
            .devices()
            .iter()
            .filter(|device| device.trust_state == TrustState::Pending)
            .count(),
        1
    );
}

#[test]
fn trusting_same_name_new_key_demotes_old_trusted_device() {
    let mut file = File::new();

    let mut store = file.load();
    file.trust(
        &mut store,
        "old-phone",
        "Phone",
        Platform::Android,
        Some("192.168.1.10"),
        Some("aa".repeat(32)),
    );
    file.record(
        &mut store,
        seen("new-phone", "Phone", Platform::Android, "192.168.1.11", "bb".repeat(32)),
    );
    file.trust_existing(&mut store, "new-phone");

    assert_eq!(store.trusted_devices().len(), 1);
    assert_eq!(store.trusted_devices()[0].id.as_str(), "new-phone");
    assert_eq!(
        store.device(&id_of("old-phone")).unwrap().trust_state,
        TrustState::Discovered
    );
}

#[test]
fn load_merges_duplicate_history_by_public_key() {
    let mut file = File::new();
    file.contents = [
        "old-phone\tPhone\tandroid\tdiscovered\t192.168.1.10\t",
        "aaaaaaaaaaaaaaaaaaaaaaaaaaaaaaaaaaaaaaaaaaaaaaaaaaaaaaaaaaaaaaaa\n",
        "new-phone\tPhone\tandroid\ttrusted\t192.168.1.11\t",
        "aaaaaaaaaaaaaaaaaaaaaaaaaaaaaaaaaaaaaaaaaaaaaaaaaaaaaaaaaaaaaaaa\n",
    ]
    .concat();

    let store = file.load();
    assert_eq!(store.devices().len(), 1);
    assert_eq!(store.trusted_devices().len(), 1);
    assert_eq!(store.trusted_devices()[0].id.as_str(), "new-phone");
    assert_eq!(store.trusted_devices()[0].endpoint.as_deref(), Some("192.168.1.11"));
}

#[test]
fn compact_persists_deduplicated_history() {
    let mut file = File::new();
    file.contents = [
        "old-phone\tPhone\tandroid\tdiscovered\t192.168.1.10\t",
        "bbbbbbbbbbbbbbbbbbbbbbbbbbbbbbbbbbbbbbbbbbbbbbbbbbbbbbbbbbbbbbbb\n",
        "new-phone\tPhone\tandroid\ttrusted\t192.168.1.11\t",
        "bbbbbbbbbbbbbbbbbbbbbbbbbbbbbbbbbbbbbbbbbbbbbbbbbbbbbbbbbbbbbbbb\n",
    ]
    .concat();

    let mut store = file.load();
    assert!(!file.compact(&mut store));

    let raw = file.contents.clone();
    assert_eq!(raw.lines().count(), 1);
    assert!(raw.contains("new-phone"));
}

#[test]
fn stale_store_cannot_overwrite_a_concurrent_revoke() {
    let mut file = File::new();
    let trusted_id = id_of("trusted-before-revoke");

    let mut setup = file.load();
    file.trust(
        &mut setup,
        "trusted-before-revoke",
        "MacBook",
        Platform::MacOs,
        Some("192.168.1.2"),
        Some("aa".repeat(32)),
    );

    let mut revoking_process = file.load();
    let mut stale_daemon_snapshot = file.load();
    assert!(file.revoke(&mut revoking_process, "trusted-before-revoke"));
    file.record(
        &mut stale_daemon_snapshot,
        seen("new-device", "Windows PC", Platform::Windows, "192.168.1.3", "bb".repeat(32)),
    );

    let reloaded = file.load();
    assert_eq!(
        reloaded.device(&trusted_id).unwrap().trust_state,
        TrustState::Revoked
    );
    assert!(reloaded.device(&id_of("new-device")).is_some());
}

#[test]
fn file_has_one_line_of_six_fields_for_each_device() {
    let mut file = File::new();
    let mut store = file.load();
    file.trust(&mut store, "a", "Tab\there", Platform::Linux, None, None);
    file.trust(
        &mut store,
        "b",
        "Phone",
        Platform::Android,
        Some("10.0.0.2"),
        Some("cd".repeat(32)),
    );
    let expected = [
        "a\tTab here\tlinux\ttrusted\t\t\n",
        "b\tPhone\tandroid\ttrusted\t10.0.0.2\t",
        "cdcdcdcdcdcdcdcdcdcdcdcdcdcdcdcdcdcdcdcdcdcdcdcdcdcdcdcdcdcdcdcd\n",
    ]
    .concat();
    assert_eq!(file.contents, expected);
    let read = parse_devices(&expected);
    assert_eq!(read.len(), 2);
    assert_eq!(read[0].endpoint, None);
    assert_eq!(read[0].public_key, None);
    assert_eq!(serialize_devices(&read), expected);
}

#[test]
fn damaged_lines_are_skipped() {
    let read = parse_devices("\tno id\tlinux\ttrusted\nshort\tline\nx\tName\tbeos\tnonsense\t  \r\n");
    assert_eq!(read.len(), 1);
    assert_eq!(read[0].id.as_str(), "x");
    assert_eq!(read[0].platform, Platform::Unknown);
    assert_eq!(read[0].trust_state, TrustState::Discovered);
    assert_eq!(read[0].endpoint, None);
}

#[test]
fn trust_states_have_words() {
    let all = [
        (TrustState::Discovered, "discovered"),
        (TrustState::Pending, "pending"),
        (TrustState::Trusted, "trusted"),
        (TrustState::Blocked, "blocked"),
        (TrustState::Revoked, "revoked"),
    ];
    for (state, word) in all {
        assert_eq!(trust_state_name(state), word);
        assert_eq!(parse_trust_state(word), state);
    }
    assert_eq!(parse_trust_state("Trusted"), TrustState::Discovered);
    assert_eq!(non_empty_string(" \t"), None);
    assert_eq!(non_empty_string(" x ").as_deref(), Some(" x "));
}

#[test]
fn missing_file_holds_nothing() {
    let missing = stored_contents(Err(Error::new(ErrorKind::NotFound, "gone")));
    assert_eq!(missing.unwrap(), "");
    let denied = stored_contents(Err(Error::new(ErrorKind::Other, "denied")));
    assert_eq!(denied.unwrap_err().kind, ErrorKind::Other);
    assert_eq!(stored_contents(Ok("a".to_string())).unwrap(), "a");
}

#[test]
fn failure_of_the_work_comes_before_that_of_the_unlocking() {
    let both: Result<u8, &str> = after_unlock(Err("work"), Err("unlock"));
    assert_eq!(both, Err("work"));
    let late: Result<u8, &str> = after_unlock(Ok(3), Err("unlock"));
    assert_eq!(late, Err("unlock"));
    let none: Result<u8, &str> = after_unlock(Ok(3), Ok(()));
    assert_eq!(none, Ok(3));
}

#[test]
fn blocked_device_is_not_recorded() {
    let mut file = File::new();
    file.contents = "b\tPhone\tandroid\tblocked\t10.0.0.2\t\n".to_string();
    let mut store = file.load();
    let before = file.contents.clone();
    assert!(!file.record(
        &mut store,
        seen("b", "Phone", Platform::Android, "10.0.0.9", "aa".repeat(32))
    ));
    assert_eq!(file.contents, before);
    assert_eq!(store.device(&id_of("b")).unwrap().endpoint.as_deref(), Some("10.0.0.2"));
}

#[test]
fn trusted_key_is_not_replaced() {
    let mut file = File::new();
    let mut store = file.load();
    file.trust(
        &mut store,
        "a",
        "Phone",
        Platform::Android,
        Some("10.0.0.2"),
        Some("aa".repeat(32)),
    );
    let before = file.contents.clone();
    assert!(!file.record(
        &mut store,
        seen("a", "Phone", Platform::Android, "10.0.0.9", "bb".repeat(32))
    ));
    assert_eq!(file.contents, before);
    assert!(!file.update(&mut store, "a", "10.0.0.9", "bb".repeat(32)));
    assert_eq!(file.contents, before);
}

#[test]
fn unknown_devices_are_neither_trusted_nor_revoked() {
    let mut file = File::new();
    let mut store = file.load();
    assert!(!file.trust_existing(&mut store, "nobody"));
    assert!(!file.revoke(&mut store, "nobody"));
    assert_eq!(file.contents, "");
    file.trust(&mut store, "a", "Phone", Platform::Android, None, None);
    file.contents = store.reset();
    assert_eq!(file.contents, "");
    assert!(store.devices().is_empty());
}

#[test]
fn records_of_one_device_need_not_become_one_at_once() {
    let key = "aa".repeat(32);
    let contents = format!(
        "1\tX\tlinux\tdiscovered\t\t\n2\tY\tlinux\tdiscovered\t\t{key}\n1\tY\tlinux\tdiscovered\t\t\n"
    );
    let (store, rewrite) = TrustStore::load(&contents);
    assert_eq!(store.devices().len(), 2);
    let (again, more) = TrustStore::load(&rewrite.unwrap());
    assert_eq!(again.devices().len(), 1);
    assert!(more.is_some());
}

#[test]
fn store_is_copied_as_it_is() {
    let mut file = File::new();
    let mut store = file.load();
    file.trust(&mut store, "a", "Phone", Platform::Android, None, None);
    let copy = store.clone();
    assert_eq!(copy.devices(), store.devices());
}

#[test]
fn unmatched_device_is_stored_beside_merged_records() {
    let contents = [
        format!("a\tPhone\tandroid\tdiscovered\t\t{}\n", "11".repeat(32)),
        format!("a\tTablet\tandroid\ttrusted\t\t{}\n", "22".repeat(32)),
    ]
    .concat();
    let (mut store, _) = TrustStore::load(&contents);
    let commit = store.record_discovered(
        &contents,
        seen("b", "Phone", Platform::Android, "10.0.0.5", "33".repeat(32)),
    );
    assert!(commit.value);
    let (loaded, _) = TrustStore::load(&commit.contents.unwrap());
    assert_eq!(loaded.devices().len(), 2);
    assert!(loaded.device(&id_of("b")).is_some());
    assert_eq!(loaded.trusted_devices().len(), 1);
}

#[test]
fn refusal_stands_against_another_key() {
    let revoked = format!("a\tPhone\tandroid\trevoked\t\t{}\n", "11".repeat(32));
    let other = seen("a", "Phone", Platform::Android, "10.0.0.5", "22".repeat(32));
    let (mut store, _) = TrustStore::load(&revoked);
    let commit = store.record_discovered(&revoked, other.clone());
    assert!(!commit.value);
    let (loaded, _) = TrustStore::load(&commit.contents.unwrap());
    assert_eq!(loaded.device(&id_of("a")).unwrap().trust_state, TrustState::Revoked);

    let blocked = revoked.replace("revoked", "blocked");
    let both = [revoked.as_str(), blocked.as_str()].concat();
    let commit = store.record_discovered(&both, other.clone());
    let (loaded, _) = TrustStore::load(&commit.contents.unwrap());
    assert_eq!(loaded.device(&id_of("a")).unwrap().trust_state, TrustState::Blocked);

    let commit = store.record_discovered(&blocked, other);
    assert!(!commit.value);
    assert!(commit.contents.is_none());
}

#[test]
fn loaded_store_has_one_record_for_each_identifier() {
    let contents = [
        format!("a\tPhone\tandroid\tdiscovered\t\t{}\n", "11".repeat(32)),
        format!("b\tTablet\tandroid\tdiscovered\t\t{}\n", "22".repeat(32)),
        format!("a\tPhone 2\tlinux\tpending\t\t{}\n", "22".repeat(32)),
        format!("c\tTablet 2\tlinux\tpending\t\t{}\n", "22".repeat(32)),
    ]
    .concat();
    let (store, _) = TrustStore::load(&contents);
    let found: Vec<(&str, &str)> = store
        .devices()
        .iter()
        .map(|device| (device.id.as_str(), device.name.as_str()))
        .collect();
    assert_eq!(found, vec![("c", "Tablet 2"), ("b", "Tablet")]);
}
