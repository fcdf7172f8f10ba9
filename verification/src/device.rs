//! Devices: their identity, their platform, and how far they are trusted.

use vstd::prelude::*;

use crate::hex::{encode_hex, hex_text};
use crate::text::{chars_of, same};

verus! {

/// The operating system that a device announces.
#[derive(Clone, Copy, Debug, PartialEq, Eq, Structural)]
pub enum Platform {
    MacOs,
    Windows,
    Linux,
    Android,
    Unknown,
}

/// How far a device is trusted.
#[derive(Clone, Copy, Debug, PartialEq, Eq, Structural)]
pub enum TrustState {
    /// Seen on the network.
    Discovered,
    /// Seen, and the user has been asked about it.
    Pending,
    /// Accepted by the user: clipboard text is shared with it.
    Trusted,
    /// Refused for good: announcements of it change nothing.
    Blocked,
    /// Trust withdrawn by the user.
    Revoked,
}

/// The identifier of a device: any text but the empty one.
#[derive(Debug, PartialEq, Eq)]
pub struct DeviceId {
    value: String,
}

impl View for DeviceId {
    type V = Seq<char>;

    closed spec fn view(&self) -> Seq<char> {
        self.value@
    }
}

impl DeviceId {
    #[verifier::type_invariant]
    spec fn valid(self) -> bool {
        self.value@.len() > 0
    }

    /// The identifier `value`, unless it is empty.
    pub fn new(value: &str) -> (res: Option<DeviceId>)
        ensures
            match res {
                Some(id) => value@.len() > 0 && id@ == value@,
                None => value@.len() == 0,
            },
    {
        if value.is_empty() {
            None
        } else {
            Some(DeviceId { value: value.to_owned() })
        }
    }

    /// The identifier as text.
    pub fn as_str(&self) -> (res: &str)
        ensures
            res@ == self@,
            res@.len() > 0,
    {
        proof {
            use_type_invariant(self);
        }
        self.value.as_str()
    }

    /// Whether two identifiers are the same text.
    pub fn same(&self, other: &DeviceId) -> (res: bool)
        ensures
            res == (self@ == other@),
    {
        self.value == other.value
    }
}

impl Clone for DeviceId {
    fn clone(&self) -> (res: DeviceId)
        ensures
            res@ == self@,
            res@.len() > 0,
    {
        proof {
            use_type_invariant(self);
        }
        DeviceId { value: self.value.clone() }
    }
}

/// What is known of a device.
#[derive(Debug, PartialEq, Eq)]
pub struct DeviceInfo {
    pub id: DeviceId,
    pub name: String,
    pub platform: Platform,
    pub trust_state: TrustState,
    pub endpoint: Option<String>,
    pub public_key: Option<String>,
}

/// What a `DeviceInfo` says, as mathematical values.
#[verifier::ext_equal]
pub struct Device {
    pub id: Seq<char>,
    pub name: Seq<char>,
    pub platform: Platform,
    pub trust_state: TrustState,
    pub endpoint: Option<Seq<char>>,
    pub public_key: Option<Seq<char>>,
}

/// The text of an optional string.
pub open spec fn optional_text(value: Option<String>) -> Option<Seq<char>> {
    match value {
        Some(text) => Some(text@),
        None => None,
    }
}

impl View for DeviceInfo {
    type V = Device;

    open spec fn view(&self) -> Device {
        Device {
            id: self.id@,
            name: self.name@,
            platform: self.platform,
            trust_state: self.trust_state,
            endpoint: optional_text(self.endpoint),
            public_key: optional_text(self.public_key),
        }
    }
}

/// What a list of devices says.
pub open spec fn device_list(devices: Seq<DeviceInfo>) -> Seq<Device> {
    Seq::new(devices.len(), |i: int| devices[i]@)
}

/// A copy of an optional string.
pub fn clone_optional(value: &Option<String>) -> (res: Option<String>)
    ensures
        optional_text(res) == optional_text(*value),
{
    match value {
        Some(text) => Some(text.clone()),
        None => None,
    }
}

/// Whether two optional strings agree: both absent, or the same text.
pub fn same_optional(left: &Option<String>, right: &Option<String>) -> (res: bool)
    ensures
        res == (optional_text(*left) == optional_text(*right)),
{
    match (left, right) {
        (Some(a), Some(b)) => same(a.as_str(), b.as_str()),
        (None, None) => true,
        _ => false,
    }
}

/// Whether an optional string is present and equals `text`.
pub fn holds_text(value: &Option<String>, text: &str) -> (res: bool)
    ensures
        res == (optional_text(*value) == Some(text@)),
{
    match value {
        Some(held) => same(held.as_str(), text),
        None => false,
    }
}

impl Clone for DeviceInfo {
    fn clone(&self) -> (res: DeviceInfo)
        ensures
            res@ == self@,
    {
        DeviceInfo {
            id: self.id.clone(),
            name: self.name.clone(),
            platform: self.platform,
            trust_state: self.trust_state,
            endpoint: clone_optional(&self.endpoint),
            public_key: clone_optional(&self.public_key),
        }
    }
}

impl DeviceInfo {
    /// Whether two records say the same.
    pub fn same(&self, other: &DeviceInfo) -> (res: bool)
        ensures
            res == (self@ == other@),
    {
        self.id.same(&other.id) && same(self.name.as_str(), other.name.as_str()) && self.platform
            == other.platform && self.trust_state == other.trust_state && same_optional(
            &self.endpoint,
            &other.endpoint,
        ) && same_optional(&self.public_key, &other.public_key)
    }
}

/// A copy of a list of devices.
pub fn clone_devices(devices: &[DeviceInfo]) -> (res: Vec<DeviceInfo>)
    ensures
        device_list(res@) == device_list(devices@),
{
    let mut res: Vec<DeviceInfo> = Vec::new();
    let mut i: usize = 0;
    while i < devices.len()
        invariant
            i <= devices.len(),
            device_list(res@) == device_list(devices@).take(i as int),
        decreases devices.len() - i,
    {
        let ghost before = device_list(res@);
        let device = devices[i].clone();
        res.push(device);
        assert(device_list(res@) =~= before.push(device@));
        assert(device_list(devices@).take(i + 1) =~= device_list(devices@).take(i as int).push(
            device_list(devices@)[i as int],
        ));
        i += 1;
    }
    assert(device_list(devices@).take(i as int) =~= device_list(devices@));
    res
}

/// Whether two lists hold the same records in the same order.
pub fn same_devices(left: &[DeviceInfo], right: &[DeviceInfo]) -> (res: bool)
    ensures
        res == (device_list(left@) == device_list(right@)),
{
    if left.len() != right.len() {
        assert(device_list(left@).len() != device_list(right@).len());
        return false;
    }
    let mut i: usize = 0;
    while i < left.len()
        invariant
            i <= left.len(),
            left.len() == right.len(),
            forall|k: int| 0 <= k < i ==> #[trigger] left@[k]@ == right@[k]@,
        decreases left.len() - i,
    {
        if !left[i].same(&right[i]) {
            assert(device_list(left@)[i as int] != device_list(right@)[i as int]);
            return false;
        }
        i += 1;
    }
    assert(device_list(left@) =~= device_list(right@));
    true
}

/// The devices of a list that may be sent clipboard text: the trusted ones, in
/// their order.
pub open spec fn trusted(devices: Seq<Device>) -> Seq<Device> {
    devices.filter(|device: Device| device.trust_state == TrustState::Trusted)
}

/// What a list of borrowed devices says.
pub open spec fn borrowed_list(devices: Seq<&DeviceInfo>) -> Seq<Device> {
    Seq::new(devices.len(), |i: int| devices[i]@)
}

/// The devices that may be sent clipboard text.
pub fn broadcast_targets(devices: &[DeviceInfo]) -> (res: Vec<&DeviceInfo>)
    ensures
        borrowed_list(res@) == trusted(device_list(devices@)),
{
    let mut res: Vec<&DeviceInfo> = Vec::new();
    let ghost all = device_list(devices@);
    let ghost pick = |device: Device| device.trust_state == TrustState::Trusted;
    let mut i: usize = 0;
    assert(borrowed_list(res@) =~= all.take(0).filter(pick)) by {
        reveal(Seq::filter);
    }
    while i < devices.len()
        invariant
            i <= devices.len(),
            all == device_list(devices@),
            pick == (|device: Device| device.trust_state == TrustState::Trusted),
            borrowed_list(res@) == all.take(i as int).filter(pick),
        decreases devices.len() - i,
    {
        let ghost before = borrowed_list(res@);
        assert(all.take(i + 1).drop_last() =~= all.take(i as int));
        reveal(Seq::filter);
        if devices[i].trust_state == TrustState::Trusted {
            res.push(&devices[i]);
            assert(borrowed_list(res@) =~= before.push(all[i as int]));
        }
        i += 1;
    }
    assert(all.take(i as int) =~= all);
    res
}

/// The name under which a platform is written to files and packets.
pub open spec fn name_of_platform(platform: Platform) -> Seq<char> {
    match platform {
        Platform::MacOs => "macos"@,
        Platform::Windows => "windows"@,
        Platform::Linux => "linux"@,
        Platform::Android => "android"@,
        Platform::Unknown => "unknown"@,
    }
}

/// The name under which a platform is written to files and packets.
pub fn platform_name(platform: Platform) -> (res: &'static str)
    ensures
        res@ == name_of_platform(platform),
{
    match platform {
        Platform::MacOs => "macos",
        Platform::Windows => "windows",
        Platform::Linux => "linux",
        Platform::Android => "android",
        Platform::Unknown => "unknown",
    }
}

/// The platform of that name; `Unknown` for any other text.
pub open spec fn platform_named(name: Seq<char>) -> Platform {
    if name == "macos"@ {
        Platform::MacOs
    } else if name == "windows"@ {
        Platform::Windows
    } else if name == "linux"@ {
        Platform::Linux
    } else if name == "android"@ {
        Platform::Android
    } else {
        Platform::Unknown
    }
}

/// The platform of that name; `Unknown` for any other text.
pub fn parse_platform(name: &str) -> (res: Platform)
    ensures
        res == platform_named(name@),
{
    if same(name, "macos") {
        Platform::MacOs
    } else if same(name, "windows") {
        Platform::Windows
    } else if same(name, "linux") {
        Platform::Linux
    } else if same(name, "android") {
        Platform::Android
    } else {
        Platform::Unknown
    }
}

/// A platform's name reads back as the platform, and holds neither a tab, nor a
/// line feed, nor a carriage return.
pub proof fn platform_name_reads_back(platform: Platform)
    ensures
        platform_named(name_of_platform(platform)) == platform,
        crate::text::free_of(name_of_platform(platform), '\t'),
        crate::text::free_of(name_of_platform(platform), '\n'),
{
    reveal_strlit("macos");
    reveal_strlit("windows");
    reveal_strlit("linux");
    reveal_strlit("android");
    reveal_strlit("unknown");
    assert("macos"@.len() == 5);
    assert("windows"@.len() == 7);
    assert("linux"@[0] == 'l');
    assert("macos"@[0] == 'm');
    assert("android"@[0] == 'a');
    assert("windows"@[0] == 'w');
    assert("unknown"@[0] == 'u');
}

/// `c`, or a space in the place of a character that would end a field or a
/// line.
pub open spec fn sanitized_char(c: char) -> char {
    if c == '\t' || c == '\n' || c == '\r' {
        ' '
    } else {
        c
    }
}

/// `value` with a space in the place of each tab, line feed and carriage
/// return.
pub open spec fn sanitized(value: Seq<char>) -> Seq<char> {
    Seq::new(value.len(), |i: int| sanitized_char(value[i]))
}

/// `value` with a space in the place of each tab, line feed and carriage
/// return, so that it fits into one field of one line.
pub fn sanitize(value: &str) -> (res: String)
    ensures
        res@ == sanitized(value@),
{
    let chars = chars_of(value);
    let mut res: String = String::new();
    let mut i: usize = 0;
    while i < chars.len()
        invariant
            i <= chars.len(),
            res@ == sanitized(chars@).take(i as int),
        decreases chars.len() - i,
    {
        let c = chars[i];
        if c == '\t' || c == '\n' || c == '\r' {
            res.push(' ');
        } else {
            res.push(c);
        }
        assert(sanitized(chars@).take(i + 1) =~= sanitized(chars@).take(i as int).push(
            sanitized_char(c),
        ));
        i += 1;
    }
    assert(sanitized(chars@).take(i as int) =~= sanitized(chars@));
    res
}

/// This device: its identity and its key pair.
#[derive(Debug)]
pub struct LocalDevice {
    pub id: DeviceId,
    pub name: String,
    pub platform: Platform,
    pub private_key: [u8; 32],
    pub public_key: [u8; 32],
}

impl LocalDevice {
    /// The public key in hexadecimal.
    pub fn public_key_hex(&self) -> (res: String)
        ensures
            res@ == hex_text(self.public_key@),
    {
        encode_hex(self.public_key.as_slice())
    }
}

impl Clone for LocalDevice {
    fn clone(&self) -> (res: LocalDevice)
        ensures
            res.id@ == self.id@,
            res.name@ == self.name@,
            res.platform == self.platform,
            res.private_key == self.private_key,
            res.public_key == self.public_key,
    {
        LocalDevice {
            id: self.id.clone(),
            name: self.name.clone(),
            platform: self.platform,
            private_key: self.private_key,
            public_key: self.public_key,
        }
    }
}

/// A name is kept on one line and in one field: every tab, line feed and
/// carriage return becomes a space, and every other character stays in its
/// place. A name without them stays as it is.
pub proof fn name_stays_in_its_field(name: Seq<char>)
    ensures
        sanitized(name).len() == name.len(),
        forall|i: int|
            0 <= i < name.len() ==> #[trigger] sanitized(name)[i] == if name[i] == '\t' || name[i]
                == '\n' || name[i] == '\r' {
                ' '
            } else {
                name[i]
            },
        sanitized(sanitized(name)) == sanitized(name),
{
    assert(sanitized(sanitized(name)) =~= sanitized(name));
}

/// A word that is no platform's name means an unknown platform.
pub proof fn other_word_is_no_platform(word: Seq<char>)
    requires
        word != "macos"@,
        word != "windows"@,
        word != "linux"@,
        word != "android"@,
    ensures
        platform_named(word) == Platform::Unknown,
{
}

/// A record says all that it holds, and a list of records says what each of them
/// says, in their order.
pub proof fn records_say_what_they_hold(devices: Seq<DeviceInfo>, at: int)
    requires
        0 <= at < devices.len(),
    ensures
        device_list(devices).len() == devices.len(),
        ({
            let said = device_list(devices)[at];
            let held = devices[at];
            &&& said.id == held.id@
            &&& said.name == held.name@
            &&& said.platform == held.platform
            &&& said.trust_state == held.trust_state
            &&& held.endpoint is None <==> said.endpoint is None
            &&& held.endpoint is Some ==> said.endpoint == Some(held.endpoint->0@)
            &&& held.public_key is None <==> said.public_key is None
            &&& held.public_key is Some ==> said.public_key == Some(held.public_key->0@)
        }),
{
}

} // verus!
