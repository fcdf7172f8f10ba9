//! The store of known devices: its file format, and the operations on it.
//!
//! Several processes share the file. So every operation starts from what the
//! file holds at that moment, which its caller reads under a lock, and hands
//! back what the caller has to write before it lets the lock go.

use vstd::prelude::*;

use crate::device::{
    borrowed_list, broadcast_targets, device_list, name_of_platform, optional_text, parse_platform,
    platform_name, platform_name_reads_back, platform_named, sanitize, sanitized, sanitized_char,
    same_devices, clone_devices, trusted, Device, DeviceId, DeviceInfo, Platform, TrustState,
};
use crate::error::{Error, ErrorKind};
use crate::registry::{
    compact_devices, compacting, find_by_id, first, first_absent, first_found, has_id,
    mark_prompted, marking, normalize_devices, normalized, record_seen, recording, revoke_all,
    revoking, trust_described, trust_known, trusting, trusting_described, update_trusted,
    updating, Effect, Outcome,
};
use crate::text::{
    blank, free_of, join, join_free_of, joined, lines, lines_append, lines_of, same, split,
    split_at_char, split_joined, strip_cr, texts, trim_empty_iff_blank, trimmed, white_space,
};

verus! {

/// The word for a trust state in the file.
pub open spec fn name_of_state(state: TrustState) -> Seq<char> {
    match state {
        TrustState::Discovered => "discovered"@,
        TrustState::Pending => "pending"@,
        TrustState::Trusted => "trusted"@,
        TrustState::Blocked => "blocked"@,
        TrustState::Revoked => "revoked"@,
    }
}

/// The trust state of that word; `Discovered` for any other text.
pub open spec fn state_named(name: Seq<char>) -> TrustState {
    if name == "pending"@ {
        TrustState::Pending
    } else if name == "trusted"@ {
        TrustState::Trusted
    } else if name == "blocked"@ {
        TrustState::Blocked
    } else if name == "revoked"@ {
        TrustState::Revoked
    } else {
        TrustState::Discovered
    }
}

/// The word for a trust state in the file.
pub fn trust_state_name(state: TrustState) -> (res: &'static str)
    ensures
        res@ == name_of_state(state),
{
    match state {
        TrustState::Discovered => "discovered",
        TrustState::Pending => "pending",
        TrustState::Trusted => "trusted",
        TrustState::Blocked => "blocked",
        TrustState::Revoked => "revoked",
    }
}

/// The trust state of that word; `Discovered` for any other text.
pub fn parse_trust_state(name: &str) -> (res: TrustState)
    ensures
        res == state_named(name@),
{
    if same(name, "pending") {
        TrustState::Pending
    } else if same(name, "trusted") {
        TrustState::Trusted
    } else if same(name, "blocked") {
        TrustState::Blocked
    } else if same(name, "revoked") {
        TrustState::Revoked
    } else {
        TrustState::Discovered
    }
}

/// The word for a trust state reads back as the state, and holds neither a tab
/// nor a line feed.
pub proof fn state_name_reads_back(state: TrustState)
    ensures
        state_named(name_of_state(state)) == state,
        free_of(name_of_state(state), '\t'),
        free_of(name_of_state(state), '\n'),
{
    reveal_strlit("discovered");
    reveal_strlit("pending");
    reveal_strlit("trusted");
    reveal_strlit("blocked");
    reveal_strlit("revoked");
    assert("discovered"@[0] == 'd');
    assert("pending"@[0] == 'p');
    assert("trusted"@[0] == 't');
    assert("blocked"@[0] == 'b');
    assert("revoked"@[0] == 'r');
}

/// A field that is present: its text, unless it is blank.
pub open spec fn present(field: Seq<char>) -> Option<Seq<char>> {
    if blank(field) {
        None
    } else {
        Some(field)
    }
}

/// The text of a field, unless it is blank.
pub fn non_empty_string(value: &str) -> (res: Option<String>)
    ensures
        optional_text(res) == present(value@),
{
    proof {
        trim_empty_iff_blank(value@);
    }
    if trimmed(value).as_str().is_empty() {
        None
    } else {
        Some(value.to_owned())
    }
}

/// The device that a line of the file describes: identifier, name, platform,
/// trust state, and then the endpoint and the public key, which may be absent
/// or blank. A line with fewer than four fields or an empty identifier
/// describes none.
pub open spec fn device_in_line(line: Seq<char>) -> Option<Device> {
    let fields = split(line, '\t');
    if fields.len() < 4 || fields[0].len() == 0 {
        None
    } else {
        Some(
            Device {
                id: fields[0],
                name: fields[1],
                platform: platform_named(fields[2]),
                trust_state: state_named(fields[3]),
                endpoint: if fields.len() > 4 {
                    present(fields[4])
                } else {
                    None
                },
                public_key: if fields.len() > 5 {
                    present(fields[5])
                } else {
                    None
                },
            },
        )
    }
}

/// The devices that lines of the file describe, in order.
pub open spec fn devices_in_lines(lines: Seq<Seq<char>>) -> Seq<Device>
    decreases lines.len(),
{
    if lines.len() == 0 {
        Seq::empty()
    } else {
        match device_in_line(lines.last()) {
            Some(device) => devices_in_lines(lines.drop_last()).push(device),
            None => devices_in_lines(lines.drop_last()),
        }
    }
}

/// The devices that a file describes.
pub open spec fn devices_in(contents: Seq<char>) -> Seq<Device> {
    devices_in_lines(lines(contents))
}

/// The fields of a device's line.
pub open spec fn fields_of(device: Device) -> Seq<Seq<char>> {
    seq![
        device.id,
        sanitized(device.name),
        name_of_platform(device.platform),
        name_of_state(device.trust_state),
        match device.endpoint {
            Some(endpoint) => endpoint,
            None => Seq::empty(),
        },
        match device.public_key {
            Some(key) => key,
            None => Seq::empty(),
        },
    ]
}

/// The line of a device, without its ending.
pub open spec fn line_of(device: Device) -> Seq<char> {
    join(fields_of(device), "\t"@)
}

/// The file that describes these devices: one line for each.
pub open spec fn file_of(devices: Seq<Device>) -> Seq<char>
    decreases devices.len(),
{
    if devices.len() == 0 {
        Seq::empty()
    } else {
        file_of(devices.drop_last()) + line_of(devices.last()).push('\n')
    }
}

/// Whether an optional field comes back from the file as it was: it is not
/// blank and holds neither a tab nor a line feed.
pub open spec fn storable_field(field: Option<Seq<char>>) -> bool {
    field is Some ==> !blank(field->0) && free_of(field->0, '\t') && free_of(field->0, '\n')
}

/// Whether the file can hold a device.
pub open spec fn storable(device: Device) -> bool {
    &&& device.id.len() > 0
    &&& free_of(device.id, '\t')
    &&& free_of(device.id, '\n')
    &&& storable_field(device.endpoint)
    &&& storable_field(device.public_key)
}

/// What the file gives back of a device: everything, with the name on one line
/// and without a carriage return at the end of the key.
pub open spec fn stored(device: Device) -> Device {
    Device {
        name: sanitized(device.name),
        public_key: match device.public_key {
            Some(key) => Some(strip_cr(key)),
            None => None,
        },
        ..device
    }
}

proof fn line_reads_back(device: Device)
    requires
        storable(device),
    ensures
        device_in_line(strip_cr(line_of(device))) == Some(stored(device)),
        free_of(line_of(device), '\n'),
{
    let fields = fields_of(device);
    platform_name_reads_back(device.platform);
    state_name_reads_back(device.trust_state);
    reveal_strlit("\t");
    assert("\t"@ =~= seq!['\t']);
    let name = sanitized(device.name);
    assert forall|i: int| 0 <= i < name.len() implies #[trigger] name[i] != '\t' && name[i]
        != '\n' by {
        assert(name[i] == sanitized_char(device.name[i]));
    }
    assert forall|i: int| 0 <= i < fields.len() implies free_of(#[trigger] fields[i], '\t')
        && free_of(fields[i], '\n') by {}
    join_free_of(fields, seq!['\t'], '\n');
    let line = line_of(device);
    let head = join(fields.drop_last(), seq!['\t']) + seq!['\t'];
    assert(line == head + fields.last());
    let key = strip_cr(fields.last());
    let kept = fields.drop_last().push(key);
    assert(strip_cr(line) =~= head + key) by {
        if fields.last().len() > 0 {
            assert(line.last() == fields.last().last());
        } else {
            assert(line.last() == '\t');
        }
    }
    assert(kept.drop_last() =~= fields.drop_last());
    assert(join(kept, seq!['\t']) == strip_cr(line));
    assert forall|i: int| 0 <= i < kept.len() implies free_of(#[trigger] kept[i], '\t') by {
        if i < 5 {
            assert(kept[i] == fields[i]);
        } else {
            assert(free_of(fields[5], '\t'));
        }
    }
    split_joined(kept, '\t');
    if let Some(text) = device.public_key {
        let at = choose|i: int| 0 <= i < text.len() && !white_space(#[trigger] text[i]);
        assert(!blank(key)) by {
            assert(!white_space('\r') || at != text.len() - 1 || text.last() != '\r');
            assert(key[at] == text[at]);
        }
    }
}

/// A file reads back as the devices that it was written for.
pub proof fn file_reads_back(devices: Seq<Device>)
    requires
        forall|i: int| 0 <= i < devices.len() ==> storable(#[trigger] devices[i]),
    ensures
        devices_in(file_of(devices)) == devices.map_values(|device: Device| stored(device)),
    decreases devices.len(),
{
    file_lines(devices);
    let ours = lines(file_of(devices));
    lines_describe(devices, ours);
}

proof fn file_ends_with_line_feed(devices: Seq<Device>)
    ensures
        file_of(devices).len() == 0 || file_of(devices).last() == '\n',
{
    if devices.len() > 0 {
        assert(file_of(devices).last() == '\n');
    }
}

proof fn file_lines(devices: Seq<Device>)
    requires
        forall|i: int| 0 <= i < devices.len() ==> storable(#[trigger] devices[i]),
    ensures
        lines(file_of(devices)) == devices.map_values(|device: Device| strip_cr(line_of(device))),
    decreases devices.len(),
{
    let ours = devices.map_values(|device: Device| strip_cr(line_of(device)));
    if devices.len() == 0 {
        assert(split(file_of(devices), '\n') =~= seq![Seq::<char>::empty()]);
        assert(lines(file_of(devices)) =~= ours);
    } else {
        let before = devices.drop_last();
        assert forall|i: int| 0 <= i < before.len() implies storable(#[trigger] before[i]) by {
            assert(before[i] == devices[i]);
        }
        file_lines(before);
        file_ends_with_line_feed(before);
        assert(storable(devices[devices.len() - 1]));
        line_reads_back(devices.last());
        lines_append(file_of(before), line_of(devices.last()));
        assert(ours =~= before.map_values(|device: Device| strip_cr(line_of(device))).push(
            strip_cr(line_of(devices.last())),
        ));
    }
}

proof fn lines_describe(devices: Seq<Device>, written: Seq<Seq<char>>)
    requires
        forall|i: int| 0 <= i < devices.len() ==> storable(#[trigger] devices[i]),
        written == devices.map_values(|device: Device| strip_cr(line_of(device))),
    ensures
        devices_in_lines(written) == devices.map_values(|device: Device| stored(device)),
    decreases devices.len(),
{
    let goal = devices.map_values(|device: Device| stored(device));
    if devices.len() == 0 {
        assert(devices_in_lines(written) =~= goal);
    } else {
        let before = devices.drop_last();
        assert forall|i: int| 0 <= i < before.len() implies storable(#[trigger] before[i]) by {
            assert(before[i] == devices[i]);
        }
        assert(written.drop_last() =~= before.map_values(
            |device: Device| strip_cr(line_of(device)),
        ));
        lines_describe(before, written.drop_last());
        assert(storable(devices[devices.len() - 1]));
        line_reads_back(devices.last());
        assert(goal =~= before.map_values(|device: Device| stored(device)).push(
            stored(devices.last()),
        ));
    }
}

/// The device that a line of the file describes.
pub fn parse_device(line: &str) -> (res: Option<DeviceInfo>)
    ensures
        match res {
            Some(device) => device_in_line(line@) == Some(device@),
            None => device_in_line(line@) is None,
        },
{
    let fields = split_at_char(line, '\t');
    let ghost parts = split(line@, '\t');
    assert(parts.len() == fields.len());
    if fields.len() < 4 {
        return None;
    }
    assert(forall|i: int| 0 <= i < fields.len() ==> parts[i] == (#[trigger] fields[i])@);
    let id = match DeviceId::new(fields[0].as_str()) {
        Some(id) => id,
        None => {
            return None;
        },
    };
    let endpoint = if fields.len() > 4 {
        non_empty_string(fields[4].as_str())
    } else {
        None
    };
    let public_key = if fields.len() > 5 {
        non_empty_string(fields[5].as_str())
    } else {
        None
    };
    Some(
        DeviceInfo {
            id,
            name: fields[1].clone(),
            platform: parse_platform(fields[2].as_str()),
            trust_state: parse_trust_state(fields[3].as_str()),
            endpoint,
            public_key,
        },
    )
}

/// The devices that a file describes.
pub fn parse_devices(contents: &str) -> (res: Vec<DeviceInfo>)
    ensures
        device_list(res@) == devices_in(contents@),
{
    let rows = lines_of(contents);
    let ghost all = lines(contents@);
    let mut res: Vec<DeviceInfo> = Vec::new();
    let mut i: usize = 0;
    assert(device_list(res@) =~= devices_in_lines(all.take(0)));
    while i < rows.len()
        invariant
            i <= rows.len(),
            texts(rows@) == all,
            device_list(res@) == devices_in_lines(all.take(i as int)),
        decreases rows.len() - i,
    {
        let ghost before = device_list(res@);
        assert(all.take(i + 1).drop_last() =~= all.take(i as int));
        assert(all[i as int] == rows@[i as int]@);
        match parse_device(rows[i].as_str()) {
            Some(device) => {
                res.push(device);
                assert(device_list(res@) =~= before.push(device@));
            },
            None => {},
        }
        i += 1;
    }
    assert(all.take(i as int) =~= all);
    res
}

fn optional_field(value: &Option<String>) -> (res: String)
    ensures
        res@ == match optional_text(*value) {
            Some(text) => text,
            None => Seq::empty(),
        },
{
    match value {
        Some(text) => text.clone(),
        None => String::new(),
    }
}

fn serialize_device(device: &DeviceInfo) -> (res: String)
    ensures
        res@ == line_of(device@).push('\n'),
{
    let mut fields: Vec<String> = Vec::new();
    fields.push(device.id.as_str().to_owned());
    fields.push(sanitize(device.name.as_str()));
    fields.push(platform_name(device.platform).to_owned());
    fields.push(trust_state_name(device.trust_state).to_owned());
    fields.push(optional_field(&device.endpoint));
    fields.push(optional_field(&device.public_key));
    assert(texts(fields@) =~= fields_of(device@));
    let mut res = joined(&fields, "\t");
    res.push('\n');
    res
}

/// The file that describes these devices.
pub fn serialize_devices(devices: &[DeviceInfo]) -> (res: String)
    ensures
        res@ == file_of(device_list(devices@)),
{
    let ghost list = device_list(devices@);
    let mut res: String = String::new();
    let mut i: usize = 0;
    assert(res@ =~= file_of(list.take(0)));
    while i < devices.len()
        invariant
            i <= devices.len(),
            list == device_list(devices@),
            res@ == file_of(list.take(i as int)),
        decreases devices.len() - i,
    {
        assert(list.take(i + 1).drop_last() =~= list.take(i as int));
        assert(list[i as int] == devices@[i as int]@);
        let line = serialize_device(&devices[i]);
        res.append(line.as_str());
        i += 1;
    }
    assert(list.take(i as int) =~= list);
    res
}

/// What the file holds, given how reading it ended: a file that is not there
/// holds nothing.
pub fn stored_contents(read: Result<String, Error>) -> (res: Result<String, Error>)
    ensures
        match read {
            Ok(contents) => res matches Ok(text) && text@ == contents@,
            Err(error) => if error.kind == ErrorKind::NotFound {
                res matches Ok(text) && text@ == Seq::<char>::empty()
            } else {
                res == Err::<String, Error>(error)
            },
        },
{
    match read {
        Ok(contents) => Ok(contents),
        Err(error) => if error.kind == ErrorKind::NotFound {
            Ok(String::new())
        } else {
            Err(error)
        },
    }
}

/// How work under a lock ended, given how the work and the unlocking ended: a
/// failure of the work comes first.
pub fn after_unlock<T, E>(work: Result<T, E>, unlocked: Result<(), E>) -> (res: Result<T, E>)
    ensures
        res == match (work, unlocked) {
            (Ok(value), Ok(())) => Ok::<T, E>(value),
            (Ok(_), Err(error)) => Err::<T, E>(error),
            (Err(error), _) => Err::<T, E>(error),
        },
{
    match work {
        Ok(value) => match unlocked {
            Ok(()) => Ok(value),
            Err(error) => Err(error),
        },
        Err(error) => Err(error),
    }
}

/// What an operation reports, and what has to be written to the file, if
/// anything.
#[derive(Debug)]
pub struct Commit {
    pub value: bool,
    pub contents: Option<String>,
}

/// Whether an operation left the store and reported as the outcome says, and
/// hands back the file of the devices exactly where they have to be stored.
pub open spec fn commits(store: TrustStore, commit: Commit, outcome: Outcome) -> bool {
    &&& store@ == outcome.devices
    &&& commit.value == outcome.value
    &&& optional_text(commit.contents) == if outcome.save {
        Some(file_of(outcome.devices))
    } else {
        None
    }
}

/// A property of devices: it has this identifier and is trusted.
pub open spec fn trusted_with_id(id: Seq<char>) -> spec_fn(Device) -> bool {
    |device: Device| device.id == id && device.trust_state == TrustState::Trusted
}

/// Whether a lookup gave the first device with the property, or none where no
/// device has it.
pub open spec fn looks_up(
    res: Option<&DeviceInfo>,
    devices: Seq<Device>,
    property: spec_fn(Device) -> bool,
) -> bool {
    match first(devices, property) {
        Some(i) => res is Some && res->0@ == devices[i],
        None => res is None,
    }
}

/// The known devices, as the file held them when the store last looked.
#[derive(Debug)]
pub struct TrustStore {
    devices: Vec<DeviceInfo>,
}

impl View for TrustStore {
    type V = Seq<Device>;

    closed spec fn view(&self) -> Seq<Device> {
        device_list(self.devices@)
    }
}

impl Clone for TrustStore {
    fn clone(&self) -> (res: TrustStore)
        ensures
            res@ == self@,
    {
        TrustStore { devices: clone_devices(&self.devices) }
    }
}

impl TrustStore {
    /// The store that a file holds, with the records of one device made one.
    /// Where that changed anything, also what the file has to hold instead.
    pub fn load(contents: &str) -> (res: (TrustStore, Option<String>))
        ensures
            res.0@ == normalized(devices_in(contents@)),
            optional_text(res.1) == if normalized(devices_in(contents@)) != devices_in(contents@) {
                Some(file_of(normalized(devices_in(contents@))))
            } else {
                None
            },
    {
        let mut devices = parse_devices(contents);
        let raw = clone_devices(&devices);
        normalize_devices(&mut devices);
        let rewrite = if same_devices(&devices, &raw) {
            None
        } else {
            Some(serialize_devices(&devices))
        };
        (TrustStore { devices }, rewrite)
    }

    /// The known devices.
    pub fn devices(&self) -> (res: &[DeviceInfo])
        ensures
            device_list(res@) == self@,
    {
        self.devices.as_slice()
    }

    /// The trusted devices, in their order.
    pub fn trusted_devices(&self) -> (res: Vec<&DeviceInfo>)
        ensures
            borrowed_list(res@) == trusted(self@),
    {
        broadcast_targets(&self.devices)
    }

    /// The device with this identifier that is trusted.
    pub fn trusted_device(&self, id: &DeviceId) -> (res: Option<&DeviceInfo>)
        ensures
            looks_up(res, self@, trusted_with_id(id@)),
    {
        let ghost list = self@;
        let mut i: usize = 0;
        while i < self.devices.len()
            invariant
                i <= self.devices.len(),
                list == device_list(self.devices@),
                forall|k: int| 0 <= k < i ==> !trusted_with_id(id@)(#[trigger] list[k]),
            decreases self.devices.len() - i,
        {
            assert(list[i as int] == self.devices@[i as int]@);
            if self.devices[i].id.same(id) && self.devices[i].trust_state == TrustState::Trusted {
                proof {
                    first_found(list, trusted_with_id(id@), i as int);
                }
                return Some(&self.devices[i]);
            }
            i += 1;
        }
        proof {
            first_absent(list, trusted_with_id(id@));
        }
        None
    }

    /// The device with this identifier.
    pub fn device(&self, id: &DeviceId) -> (res: Option<&DeviceInfo>)
        ensures
            looks_up(res, self@, has_id(id@)),
    {
        match find_by_id(&self.devices, id) {
            Some(index) => Some(&self.devices[index]),
            None => None,
        }
    }

    fn commit(&self, effect: Effect) -> (res: Commit)
        ensures
            res.value == effect.value,
            optional_text(res.contents) == if effect.save {
                Some(file_of(self@))
            } else {
                None
            },
    {
        Commit {
            value: effect.value,
            contents: if effect.save {
                Some(serialize_devices(&self.devices))
            } else {
                None
            },
        }
    }

    /// The user trusts the device with this identifier. Reports whether it is
    /// known.
    pub fn trust_existing(&mut self, contents: &str, id: &DeviceId) -> (res: Commit)
        ensures
            commits(*final(self), res, trusting(devices_in(contents@), id@)),
    {
        self.devices = parse_devices(contents);
        let effect = trust_known(&mut self.devices, id);
        self.commit(effect)
    }

    /// The user trusts a device, described by hand. Hands back what has to be
    /// written to the file.
    pub fn trust(
        &mut self,
        contents: &str,
        id: DeviceId,
        name: String,
        platform: Platform,
        endpoint: Option<String>,
        public_key: Option<String>,
    ) -> (res: String)
        ensures
            final(self)@ == trusting_described(
                devices_in(contents@),
                Device {
                    id: id@,
                    name: name@,
                    platform,
                    trust_state: TrustState::Trusted,
                    endpoint: optional_text(endpoint),
                    public_key: optional_text(public_key),
                },
            ),
            res@ == file_of(final(self)@),
    {
        self.devices = parse_devices(contents);
        let given = DeviceInfo {
            id,
            name,
            platform,
            trust_state: TrustState::Trusted,
            endpoint,
            public_key,
        };
        trust_described(&mut self.devices, given);
        serialize_devices(&self.devices)
    }

    /// A device was seen on the network. Reports whether that is news of a
    /// device that was not known under another key.
    pub fn record_discovered(&mut self, contents: &str, discovered: DeviceInfo) -> (res: Commit)
        ensures
            commits(*final(self), res, recording(devices_in(contents@), discovered@)),
    {
        self.devices = parse_devices(contents);
        let effect = record_seen(&mut self.devices, discovered);
        self.commit(effect)
    }

    /// Persists that the pairing prompt is shown for a device. A device may
    /// announce itself again and again, or come back with a new identity after
    /// it was installed anew; neither may interrupt the user once more.
    /// Reports whether the prompt is due.
    pub fn mark_pairing_prompted(&mut self, contents: &str, discovered: &DeviceInfo) -> (res:
        Commit)
        ensures
            commits(*final(self), res, marking(devices_in(contents@), discovered@)),
    {
        self.devices = parse_devices(contents);
        let effect = mark_prompted(&mut self.devices, discovered);
        self.commit(effect)
    }

    /// The user withdraws trust. Reports whether the device is known.
    pub fn revoke(&mut self, contents: &str, id: &DeviceId) -> (res: Commit)
        ensures
            commits(*final(self), res, revoking(devices_in(contents@), id@)),
    {
        self.devices = parse_devices(contents);
        let effect = revoke_all(&mut self.devices, id);
        self.commit(effect)
    }

    /// A trusted device was seen at an endpoint with a key. Reports whether
    /// its record changed.
    pub fn update_endpoint_and_key(
        &mut self,
        contents: &str,
        id: &DeviceId,
        endpoint: String,
        public_key: String,
    ) -> (res: Commit)
        ensures
            commits(
                *final(self),
                res,
                updating(devices_in(contents@), id@, endpoint@, public_key@),
            ),
    {
        self.devices = parse_devices(contents);
        let effect = update_trusted(&mut self.devices, id, endpoint, public_key);
        self.commit(effect)
    }

    /// Forgets every device. Hands back what has to be written to the file.
    pub fn reset(&mut self) -> (res: String)
        ensures
            final(self)@ == Seq::<Device>::empty(),
            res@ == Seq::<char>::empty(),
    {
        self.devices = Vec::new();
        assert(device_list(self.devices@) =~= Seq::empty());
        serialize_devices(&self.devices)
    }

    /// Makes the records of one device one. Reports whether that changed
    /// anything.
    pub fn compact(&mut self, contents: &str) -> (res: Commit)
        ensures
            commits(*final(self), res, compacting(devices_in(contents@))),
    {
        self.devices = parse_devices(contents);
        let effect = compact_devices(&mut self.devices);
        self.commit(effect)
    }
}

} // verus!
