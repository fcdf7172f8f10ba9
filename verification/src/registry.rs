//! The rules by which a list of devices changes: which record an announcement
//! belongs to, how two records of one device become one, and what each
//! decision of the user does.

use vstd::prelude::*;

use crate::device::{device_list, holds_text, Device, DeviceId, DeviceInfo, Platform, TrustState};
use crate::text::same;

verus! {

/// A property of devices: it has this identifier.
pub open spec fn has_id(id: Seq<char>) -> spec_fn(Device) -> bool {
    |device: Device| device.id == id
}

/// A property of devices: it has this public key.
pub open spec fn has_key(key: Seq<char>) -> spec_fn(Device) -> bool {
    |device: Device| device.public_key == Some(key)
}

/// A property of devices: it is advertised as `other` is.
pub open spec fn advertised_as(other: Device) -> spec_fn(Device) -> bool {
    |device: Device| same_advertised(device, other)
}

/// A property of devices: it is trusted, and has this identifier or this
/// public key.
pub open spec fn trusted_peer(id: Seq<char>, key: Seq<char>) -> spec_fn(Device) -> bool {
    |device: Device|
        device.trust_state == TrustState::Trusted && (device.id == id || device.public_key == Some(
            key,
        ))
}

/// The position of the first device with the property.
pub open spec fn first(devices: Seq<Device>, property: spec_fn(Device) -> bool) -> Option<int>
    decreases devices.len(),
{
    if devices.len() == 0 {
        None
    } else {
        match first(devices.drop_last(), property) {
            Some(i) => Some(i),
            None => if property(devices.last()) {
                Some(devices.len() - 1)
            } else {
                None
            },
        }
    }
}

/// The first device with a property: it has it and none before it does. There
/// is none where no device has it.
pub proof fn first_is_first(devices: Seq<Device>, property: spec_fn(Device) -> bool)
    ensures
        match first(devices, property) {
            Some(i) => 0 <= i < devices.len() && property(devices[i]) && forall|k: int|
                0 <= k < i ==> !property(#[trigger] devices[k]),
            None => forall|k: int| 0 <= k < devices.len() ==> !property(#[trigger] devices[k]),
        },
    decreases devices.len(),
{
    if devices.len() > 0 {
        let before = devices.drop_last();
        first_is_first(before, property);
        assert forall|k: int| 0 <= k < before.len() implies before[k] == #[trigger] devices[k] by {}
    }
}

/// A position is the first with a property if it has it and none before does.
pub proof fn first_found(devices: Seq<Device>, property: spec_fn(Device) -> bool, at: int)
    requires
        0 <= at < devices.len(),
        property(devices[at]),
        forall|k: int| 0 <= k < at ==> !property(#[trigger] devices[k]),
    ensures
        first(devices, property) == Some(at),
{
    first_is_first(devices, property);
    match first(devices, property) {
        Some(i) => {
            assert(property(devices[i]));
            if at < i {
                assert(!property(devices[at]));
            }
        },
        None => {},
    }
}

/// No position has a property that no device has.
pub proof fn first_absent(devices: Seq<Device>, property: spec_fn(Device) -> bool)
    requires
        forall|k: int| 0 <= k < devices.len() ==> !property(#[trigger] devices[k]),
    ensures
        first(devices, property) is None,
{
    first_is_first(devices, property);
}

/// Whether both devices have a public key and the keys differ.
pub open spec fn keys_conflict(left: Device, right: Device) -> bool {
    left.public_key is Some && right.public_key is Some && left.public_key != right.public_key
}

/// Whether two records advertise the same device: the same name and platform,
/// and no two different keys.
pub open spec fn same_advertised(left: Device, right: Device) -> bool {
    !keys_conflict(left, right) && left.name == right.name && left.platform == right.platform
}

/// The record that `device` belongs to: the first with its identifier, else
/// the first with its public key, else the first that is advertised alike.
pub open spec fn match_index(devices: Seq<Device>, device: Device) -> Option<int> {
    match first(devices, has_id(device.id)) {
        Some(i) => Some(i),
        None => {
            let by_key = match device.public_key {
                Some(key) => first(devices, has_key(key)),
                None => None,
            };
            match by_key {
                Some(i) => Some(i),
                None => first(devices, advertised_as(device)),
            }
        },
    }
}

/// The strength of a trust state where two records become one.
pub open spec fn rank(state: TrustState) -> int {
    match state {
        TrustState::Discovered => 0,
        TrustState::Pending => 1,
        TrustState::Trusted => 2,
        TrustState::Revoked => 3,
        TrustState::Blocked => 4,
    }
}

/// The stronger of two trust states.
pub open spec fn stronger(left: TrustState, right: TrustState) -> TrustState {
    if rank(right) > rank(left) {
        right
    } else {
        left
    }
}

/// One record for two of the same device. A trusted record keeps everything
/// against a different key. Otherwise the stronger trust state and the newer
/// identifier, name and platform hold, a newer endpoint does, and a newer key
/// does unless the record is trusted and has one.
pub open spec fn merged(existing: Device, incoming: Device) -> Device {
    if keys_conflict(existing, incoming) && existing.trust_state == TrustState::Trusted {
        existing
    } else {
        let state = stronger(existing.trust_state, incoming.trust_state);
        Device {
            id: incoming.id,
            name: incoming.name,
            platform: incoming.platform,
            trust_state: state,
            endpoint: if incoming.endpoint is Some {
                incoming.endpoint
            } else {
                existing.endpoint
            },
            public_key: if incoming.public_key is Some && (existing.public_key is None || state
                != TrustState::Trusted) {
                incoming.public_key
            } else {
                existing.public_key
            },
        }
    }
}

/// `devices` with one more record: merged into the one it belongs to, else
/// added at the end.
pub open spec fn absorbed(devices: Seq<Device>, device: Device) -> Seq<Device> {
    match match_index(devices, device) {
        Some(i) => devices.update(i, merged(devices[i], device)),
        None => devices.push(device),
    }
}

/// `devices` with the records of one device made one, from the first on.
pub open spec fn normalized(devices: Seq<Device>) -> Seq<Device>
    decreases devices.len(),
{
    if devices.len() == 0 {
        Seq::empty()
    } else {
        absorbed(normalized(devices.drop_last()), devices.last())
    }
}

/// `device` in another trust state.
pub open spec fn in_state(device: Device, state: TrustState) -> Device {
    Device { trust_state: state, ..device }
}

/// `device`, no longer trusted where it is advertised under that name and
/// platform with another identifier.
pub open spec fn demoted_one(
    device: Device,
    id: Seq<char>,
    name: Seq<char>,
    platform: Platform,
) -> Device {
    if device.id != id && device.trust_state == TrustState::Trusted && device.name == name
        && device.platform == platform {
        in_state(device, TrustState::Discovered)
    } else {
        device
    }
}

/// `devices` with every other trusted device of that name and platform back in
/// the state `Discovered`.
pub open spec fn demoted(
    devices: Seq<Device>,
    id: Seq<char>,
    name: Seq<char>,
    platform: Platform,
) -> Seq<Device> {
    Seq::new(devices.len(), |i: int| demoted_one(devices[i], id, name, platform))
}

/// What an operation on the list leaves and reports, and whether the list has
/// to be stored.
pub struct Outcome {
    pub devices: Seq<Device>,
    pub value: bool,
    pub save: bool,
}

/// The user trusts the device with this identifier.
pub open spec fn trusting(devices: Seq<Device>, id: Seq<char>) -> Outcome {
    match first(devices, has_id(id)) {
        None => Outcome { devices, value: false, save: false },
        Some(i) => {
            let device = devices[i];
            Outcome {
                devices: normalized(
                    demoted(
                        devices.update(i, in_state(device, TrustState::Trusted)),
                        id,
                        device.name,
                        device.platform,
                    ),
                ),
                value: true,
                save: true,
            }
        },
    }
}

/// `existing` as the user describes it in `given`, trusted. What `given` leaves
/// out stays.
pub open spec fn redescribed(existing: Device, given: Device) -> Device {
    Device {
        id: existing.id,
        name: given.name,
        platform: given.platform,
        trust_state: TrustState::Trusted,
        endpoint: if given.endpoint is Some {
            given.endpoint
        } else {
            existing.endpoint
        },
        public_key: if given.public_key is Some {
            given.public_key
        } else {
            existing.public_key
        },
    }
}

/// `devices` with a device as the user describes it, trusted: in the place of
/// the first with its identifier, else at the end.
pub open spec fn described(devices: Seq<Device>, given: Device) -> Seq<Device> {
    match first(devices, has_id(given.id)) {
        Some(i) => devices.update(i, redescribed(devices[i], given)),
        None => devices.push(in_state(given, TrustState::Trusted)),
    }
}

/// The user trusts a device that the user describes.
pub open spec fn trusting_described(devices: Seq<Device>, given: Device) -> Seq<Device> {
    normalized(demoted(described(devices, given), given.id, given.name, given.platform))
}

/// A device was seen on the network. A device in no record is added. A blocked
/// device changes nothing. A different key for a known device is kept as a
/// record of its own, as far as merging allows. Otherwise the record takes
/// everything but its trust state from the announcement.
pub open spec fn recording(devices: Seq<Device>, seen: Device) -> Outcome {
    match match_index(devices, seen) {
        None => Outcome { devices: normalized(devices.push(seen)), value: true, save: true },
        Some(i) => {
            let existing = devices[i];
            let updated = in_state(seen, existing.trust_state);
            if existing.trust_state == TrustState::Blocked {
                Outcome { devices, value: false, save: false }
            } else if keys_conflict(existing, seen) {
                Outcome { devices: normalized(devices.push(seen)), value: false, save: true }
            } else if existing == updated {
                Outcome { devices, value: false, save: false }
            } else if existing.trust_state == TrustState::Revoked {
                Outcome { devices: devices.update(i, updated), value: true, save: true }
            } else {
                Outcome {
                    devices: normalized(devices.update(i, updated)),
                    value: true,
                    save: true,
                }
            }
        },
    }
}

/// Whether the user has been asked about a device of that name and platform.
pub open spec fn prompted(devices: Seq<Device>, name: Seq<char>, platform: Platform) -> bool {
    exists|i: int|
        0 <= i < devices.len() && (#[trigger] devices[i]).trust_state == TrustState::Pending
            && devices[i].name == name && devices[i].platform == platform
}

/// The user is to be asked about a device: once for each name and platform,
/// and only while the device is merely discovered.
pub open spec fn marking(devices: Seq<Device>, seen: Device) -> Outcome {
    let unchanged = Outcome { devices, value: false, save: false };
    if prompted(devices, seen.name, seen.platform) {
        unchanged
    } else {
        match match_index(devices, seen) {
            None => unchanged,
            Some(i) => if devices[i].trust_state != TrustState::Discovered {
                unchanged
            } else {
                Outcome {
                    devices: devices.update(i, in_state(devices[i], TrustState::Pending)),
                    value: true,
                    save: true,
                }
            },
        }
    }
}

/// Whether a device has this identifier.
pub open spec fn known(devices: Seq<Device>, id: Seq<char>) -> bool {
    exists|i: int| 0 <= i < devices.len() && (#[trigger] devices[i]).id == id
}

/// The user withdraws trust from every record with this identifier.
pub open spec fn revoking(devices: Seq<Device>, id: Seq<char>) -> Outcome {
    Outcome {
        devices: Seq::new(
            devices.len(),
            |i: int|
                if devices[i].id == id {
                    in_state(devices[i], TrustState::Revoked)
                } else {
                    devices[i]
                },
        ),
        value: known(devices, id),
        save: known(devices, id),
    }
}

/// A trusted device was seen at an endpoint with a key. The first trusted
/// record with this identifier or key takes the endpoint, and the key where it
/// has none; with a different key nothing is stored or reported.
pub open spec fn updating(
    devices: Seq<Device>,
    id: Seq<char>,
    endpoint: Seq<char>,
    key: Seq<char>,
) -> Outcome {
    match first(devices, trusted_peer(id, key)) {
        None => Outcome { devices, value: false, save: false },
        Some(i) => {
            let device = devices[i];
            let keyed = device.public_key is None;
            let conflict = device.public_key is Some && device.public_key != Some(key);
            let changed = !conflict && (keyed || device.endpoint != Some(endpoint));
            Outcome {
                devices: devices.update(
                    i,
                    Device {
                        endpoint: Some(endpoint),
                        public_key: if keyed {
                            Some(key)
                        } else {
                            device.public_key
                        },
                        ..device
                    },
                ),
                value: changed,
                save: changed,
            }
        },
    }
}

/// The records of one device are made one; reports whether that changed the
/// list.
pub open spec fn compacting(devices: Seq<Device>) -> Outcome {
    Outcome {
        devices: normalized(devices),
        value: normalized(devices) != devices,
        save: normalized(devices) != devices,
    }
}

proof fn list_update(devices: Seq<DeviceInfo>, at: int, device: DeviceInfo)
    requires
        0 <= at < devices.len(),
    ensures
        device_list(devices.update(at, device)) == device_list(devices).update(at, device@),
{
    assert(device_list(devices.update(at, device)) =~= device_list(devices).update(at, device@));
}

proof fn list_push(devices: Seq<DeviceInfo>, device: DeviceInfo)
    ensures
        device_list(devices.push(device)) == device_list(devices).push(device@),
{
    assert(device_list(devices.push(device)) =~= device_list(devices).push(device@));
}

/// The position of the first device with this identifier.
pub fn find_by_id(devices: &[DeviceInfo], id: &DeviceId) -> (res: Option<usize>)
    ensures
        match res {
            Some(i) => first(device_list(devices@), has_id(id@)) == Some(i as int) && i
                < devices@.len(),
            None => first(device_list(devices@), has_id(id@)) is None,
        },
{
    let ghost list = device_list(devices@);
    let mut i: usize = 0;
    while i < devices.len()
        invariant
            i <= devices.len(),
            list == device_list(devices@),
            forall|k: int| 0 <= k < i ==> !has_id(id@)(#[trigger] list[k]),
        decreases devices.len() - i,
    {
        assert(list[i as int] == devices@[i as int]@);
        if devices[i].id.same(id) {
            proof {
                first_found(list, has_id(id@), i as int);
            }
            return Some(i);
        }
        i += 1;
    }
    proof {
        first_absent(list, has_id(id@));
    }
    None
}

fn find_by_key(devices: &[DeviceInfo], key: &str) -> (res: Option<usize>)
    ensures
        match res {
            Some(i) => first(device_list(devices@), has_key(key@)) == Some(i as int) && i
                < devices@.len(),
            None => first(device_list(devices@), has_key(key@)) is None,
        },
{
    let ghost list = device_list(devices@);
    let mut i: usize = 0;
    while i < devices.len()
        invariant
            i <= devices.len(),
            list == device_list(devices@),
            forall|k: int| 0 <= k < i ==> !has_key(key@)(#[trigger] list[k]),
        decreases devices.len() - i,
    {
        assert(list[i as int] == devices@[i as int]@);
        if holds_text(&devices[i].public_key, key) {
            proof {
                first_found(list, has_key(key@), i as int);
            }
            return Some(i);
        }
        i += 1;
    }
    proof {
        first_absent(list, has_key(key@));
    }
    None
}

/// Whether both records have a public key and the keys differ.
pub fn key_conflict(left: &DeviceInfo, right: &DeviceInfo) -> (res: bool)
    ensures
        res == keys_conflict(left@, right@),
{
    match (&left.public_key, &right.public_key) {
        (Some(a), Some(b)) => !same(a.as_str(), b.as_str()),
        _ => false,
    }
}

/// Whether two records advertise the same device.
pub fn same_advertised_device(left: &DeviceInfo, right: &DeviceInfo) -> (res: bool)
    ensures
        res == same_advertised(left@, right@),
{
    !key_conflict(left, right) && same(left.name.as_str(), right.name.as_str()) && left.platform
        == right.platform
}

/// The record that `device` belongs to.
pub fn find_existing_device_index(devices: &[DeviceInfo], device: &DeviceInfo) -> (res: Option<
    usize,
>)
    ensures
        match res {
            Some(i) => match_index(device_list(devices@), device@) == Some(i as int) && i
                < devices@.len(),
            None => match_index(device_list(devices@), device@) is None,
        },
{
    let by_id = find_by_id(devices, &device.id);
    if by_id.is_some() {
        return by_id;
    }
    if let Some(key) = &device.public_key {
        let by_key = find_by_key(devices, key.as_str());
        if by_key.is_some() {
            return by_key;
        }
    }
    let ghost list = device_list(devices@);
    let mut i: usize = 0;
    while i < devices.len()
        invariant
            i <= devices.len(),
            list == device_list(devices@),
            first(list, has_id(device@.id)) is None,
            device@.public_key is Some ==> first(list, has_key(device@.public_key->0)) is None,
            forall|k: int| 0 <= k < i ==> !advertised_as(device@)(#[trigger] list[k]),
        decreases devices.len() - i,
    {
        assert(list[i as int] == devices@[i as int]@);
        if same_advertised_device(&devices[i], device) {
            proof {
                first_found(list, advertised_as(device@), i as int);
            }
            return Some(i);
        }
        i += 1;
    }
    proof {
        first_absent(list, advertised_as(device@));
    }
    None
}

/// The strength of a trust state where two records become one.
pub fn trust_state_rank(state: TrustState) -> (res: u8)
    ensures
        res == rank(state),
{
    match state {
        TrustState::Discovered => 0,
        TrustState::Pending => 1,
        TrustState::Trusted => 2,
        TrustState::Revoked => 3,
        TrustState::Blocked => 4,
    }
}

/// The stronger of two trust states.
pub fn stronger_trust_state(left: TrustState, right: TrustState) -> (res: TrustState)
    ensures
        res == stronger(left, right),
{
    if trust_state_rank(right) > trust_state_rank(left) {
        right
    } else {
        left
    }
}

/// Makes one record of two of the same device.
pub fn merge_device(existing: &mut DeviceInfo, incoming: DeviceInfo)
    ensures
        final(existing)@ == merged(old(existing)@, incoming@),
{
    if key_conflict(existing, &incoming) && existing.trust_state == TrustState::Trusted {
        return;
    }
    existing.trust_state = stronger_trust_state(existing.trust_state, incoming.trust_state);
    // The newest identifier is the one that future packets come from.
    existing.id = incoming.id;
    existing.name = incoming.name;
    existing.platform = incoming.platform;
    if incoming.endpoint.is_some() {
        existing.endpoint = incoming.endpoint;
    }
    if existing.public_key.is_none() || existing.trust_state != TrustState::Trusted {
        if incoming.public_key.is_some() {
            existing.public_key = incoming.public_key;
        }
    }
}

/// Makes the records of one device one.
pub fn normalize_devices(devices: &mut Vec<DeviceInfo>)
    ensures
        device_list(final(devices)@) == normalized(device_list(old(devices)@)),
{
    let ghost list = device_list(devices@);
    let mut result: Vec<DeviceInfo> = Vec::new();
    let mut i: usize = 0;
    assert(device_list(result@) =~= normalized(list.take(0)));
    while i < devices.len()
        invariant
            i <= devices.len(),
            list == device_list(devices@),
            device_list(result@) == normalized(list.take(i as int)),
        decreases devices.len() - i,
    {
        let device = devices[i].clone();
        let ghost before = result@;
        assert(list.take(i + 1).drop_last() =~= list.take(i as int));
        assert(list.take(i + 1).last() == device@);
        match find_existing_device_index(&result, &device) {
            Some(at) => {
                let ghost incoming = device@;
                merge_device(&mut result[at], device);
                proof {
                    list_update(before, at as int, result@[at as int]);
                    assert(result@ =~= before.update(at as int, result@[at as int]));
                }
            },
            None => {
                result.push(device);
                proof {
                    list_push(before, device);
                }
            },
        }
        i += 1;
    }
    assert(list.take(i as int) =~= list);
    *devices = result;
}

/// What an operation on the list reports, and whether the list has to be
/// stored.
#[derive(Clone, Copy, Debug, PartialEq, Eq, Structural)]
pub struct Effect {
    pub value: bool,
    pub save: bool,
}

/// Whether a list and what is reported of it are as the outcome says.
pub open spec fn reaches(devices: Seq<Device>, effect: Effect, outcome: Outcome) -> bool {
    devices == outcome.devices && effect.value == outcome.value && effect.save == outcome.save
}

/// Puts every other trusted device of that name and platform back in the state
/// `Discovered`.
pub fn demote_same_advertised_trusted_devices(
    devices: &mut Vec<DeviceInfo>,
    trusted_id: &DeviceId,
    trusted_name: &str,
    trusted_platform: Platform,
)
    ensures
        device_list(final(devices)@) == demoted(
            device_list(old(devices)@),
            trusted_id@,
            trusted_name@,
            trusted_platform,
        ),
{
    let ghost start = device_list(devices@);
    let ghost goal = demoted(start, trusted_id@, trusted_name@, trusted_platform);
    let mut i: usize = 0;
    while i < devices.len()
        invariant
            i <= devices.len(),
            start.len() == devices.len(),
            goal == demoted(start, trusted_id@, trusted_name@, trusted_platform),
            forall|k: int| 0 <= k < i ==> (#[trigger] devices@[k])@ == goal[k],
            forall|k: int| i <= k < devices.len() ==> (#[trigger] devices@[k])@ == start[k],
        decreases devices.len() - i,
    {
        assert(devices@[i as int]@ == start[i as int]);
        if !devices[i].id.same(trusted_id) && devices[i].trust_state == TrustState::Trusted && same(
            devices[i].name.as_str(),
            trusted_name,
        ) && devices[i].platform == trusted_platform {
            devices[i].trust_state = TrustState::Discovered;
        }
        i += 1;
    }
    assert(device_list(devices@) =~= goal);
}

/// Trusts the known device with this identifier, in the place of other devices
/// of its name and platform.
pub fn trust_known(devices: &mut Vec<DeviceInfo>, id: &DeviceId) -> (res: Effect)
    ensures
        reaches(
            device_list(final(devices)@),
            res,
            trusting(device_list(old(devices)@), id@),
        ),
{
    let ghost before = devices@;
    let index = match find_by_id(devices, id) {
        Some(index) => index,
        None => {
            return Effect { value: false, save: false };
        },
    };
    let name = devices[index].name.clone();
    let platform = devices[index].platform;
    devices[index].trust_state = TrustState::Trusted;
    proof {
        assert(devices@ =~= before.update(index as int, devices@[index as int]));
        list_update(before, index as int, devices@[index as int]);
    }
    demote_same_advertised_trusted_devices(devices, id, name.as_str(), platform);
    normalize_devices(devices);
    Effect { value: true, save: true }
}

/// Trusts a device as the user describes it, in the place of other devices of
/// that name and platform.
pub fn trust_described(devices: &mut Vec<DeviceInfo>, given: DeviceInfo)
    ensures
        device_list(final(devices)@) == trusting_described(device_list(old(devices)@), given@),
{
    let ghost before = devices@;
    let id = given.id.clone();
    let name = given.name.clone();
    let platform = given.platform;
    match find_by_id(devices, &given.id) {
        Some(index) => {
            let kept = devices[index].clone();
            let endpoint = if given.endpoint.is_some() {
                given.endpoint
            } else {
                kept.endpoint
            };
            let public_key = if given.public_key.is_some() {
                given.public_key
            } else {
                kept.public_key
            };
            devices[index].name = given.name;
            devices[index].platform = platform;
            devices[index].trust_state = TrustState::Trusted;
            devices[index].endpoint = endpoint;
            devices[index].public_key = public_key;
            proof {
                assert(devices@ =~= before.update(index as int, devices@[index as int]));
                list_update(before, index as int, devices@[index as int]);
            }
        },
        None => {
            let mut device = given;
            device.trust_state = TrustState::Trusted;
            devices.push(device);
            proof {
                list_push(before, device);
            }
        },
    }
    demote_same_advertised_trusted_devices(devices, &id, name.as_str(), platform);
    normalize_devices(devices);
}

/// Records that a device was seen on the network.
pub fn record_seen(devices: &mut Vec<DeviceInfo>, seen: DeviceInfo) -> (res: Effect)
    ensures
        reaches(
            device_list(final(devices)@),
            res,
            recording(device_list(old(devices)@), seen@),
        ),
{
    let ghost before = devices@;
    let index = match find_existing_device_index(devices, &seen) {
        Some(index) => index,
        None => {
            devices.push(seen);
            proof {
                list_push(before, seen);
            }
            normalize_devices(devices);
            return Effect { value: true, save: true };
        },
    };
    let state = devices[index].trust_state;
    if state == TrustState::Blocked {
        return Effect { value: false, save: false };
    }
    if key_conflict(&devices[index], &seen) {
        devices.push(seen);
        proof {
            list_push(before, seen);
        }
        normalize_devices(devices);
        return Effect { value: false, save: true };
    }
    let mut updated = seen;
    updated.trust_state = state;
    if devices[index].same(&updated) {
        return Effect { value: false, save: false };
    }
    devices[index] = updated;
    proof {
        assert(devices@ =~= before.update(index as int, updated));
        list_update(before, index as int, updated);
    }
    // Revocation blocks automatic trust, but the address stays fresh so that a
    // manual scan can add the device again.
    if state != TrustState::Revoked {
        normalize_devices(devices);
    }
    Effect { value: true, save: true }
}

/// Records that the user is asked about a device, where that is due.
pub fn mark_prompted(devices: &mut Vec<DeviceInfo>, seen: &DeviceInfo) -> (res: Effect)
    ensures
        reaches(
            device_list(final(devices)@),
            res,
            marking(device_list(old(devices)@), seen@),
        ),
{
    let ghost before = devices@;
    let ghost list = device_list(before);
    let mut i: usize = 0;
    while i < devices.len()
        invariant
            i <= devices.len(),
            devices@ == before,
            list == device_list(before),
            forall|k: int|
                0 <= k < i ==> !((#[trigger] list[k]).trust_state == TrustState::Pending
                    && list[k].name == seen@.name && list[k].platform == seen@.platform),
        decreases devices.len() - i,
    {
        assert(list[i as int] == devices@[i as int]@);
        if devices[i].trust_state == TrustState::Pending && same(
            devices[i].name.as_str(),
            seen.name.as_str(),
        ) && devices[i].platform == seen.platform {
            assert(prompted(list, seen@.name, seen@.platform));
            return Effect { value: false, save: false };
        }
        i += 1;
    }
    assert(!prompted(list, seen@.name, seen@.platform));
    let index = match find_existing_device_index(devices, seen) {
        Some(index) => index,
        None => {
            return Effect { value: false, save: false };
        },
    };
    assert(list[index as int] == devices@[index as int]@);
    if devices[index].trust_state != TrustState::Discovered {
        return Effect { value: false, save: false };
    }
    devices[index].trust_state = TrustState::Pending;
    proof {
        assert(devices@ =~= before.update(index as int, devices@[index as int]));
        list_update(before, index as int, devices@[index as int]);
    }
    Effect { value: true, save: true }
}

/// Withdraws trust from every record with this identifier.
pub fn revoke_all(devices: &mut Vec<DeviceInfo>, id: &DeviceId) -> (res: Effect)
    ensures
        reaches(
            device_list(final(devices)@),
            res,
            revoking(device_list(old(devices)@), id@),
        ),
{
    let ghost start = device_list(devices@);
    let ghost goal = revoking(start, id@).devices;
    let mut changed = false;
    let mut i: usize = 0;
    while i < devices.len()
        invariant
            i <= devices.len(),
            start.len() == devices.len(),
            goal == revoking(start, id@).devices,
            forall|k: int| 0 <= k < i ==> (#[trigger] devices@[k])@ == goal[k],
            forall|k: int| i <= k < devices.len() ==> (#[trigger] devices@[k])@ == start[k],
            changed <==> exists|k: int| 0 <= k < i && (#[trigger] start[k]).id == id@,
        decreases devices.len() - i,
    {
        assert(devices@[i as int]@ == start[i as int]);
        if devices[i].id.same(id) {
            devices[i].trust_state = TrustState::Revoked;
            changed = true;
            assert(start[i as int].id == id@);
        }
        i += 1;
    }
    assert(device_list(devices@) =~= goal);
    Effect { value: changed, save: changed }
}

/// Records where a trusted device was seen, and its key.
pub fn update_trusted(
    devices: &mut Vec<DeviceInfo>,
    id: &DeviceId,
    endpoint: String,
    public_key: String,
) -> (res: Effect)
    ensures
        reaches(
            device_list(final(devices)@),
            res,
            updating(device_list(old(devices)@), id@, endpoint@, public_key@),
        ),
{
    let ghost before = devices@;
    let ghost list = device_list(before);
    let ghost peer = trusted_peer(id@, public_key@);
    let mut i: usize = 0;
    while i < devices.len() && !(devices[i].trust_state == TrustState::Trusted && (
    devices[i].id.same(id) || holds_text(&devices[i].public_key, public_key.as_str())))
        invariant
            i <= devices.len(),
            devices@ == before,
            list == device_list(before),
            peer == trusted_peer(id@, public_key@),
            forall|k: int| 0 <= k < i ==> !peer(#[trigger] list[k]),
        decreases devices.len() - i,
    {
        assert(list[i as int] == devices@[i as int]@);
        i += 1;
    }
    if i == devices.len() {
        proof {
            first_absent(list, peer);
        }
        return Effect { value: false, save: false };
    }
    proof {
        assert(list[i as int] == devices@[i as int]@);
        first_found(list, peer, i as int);
    }
    let ghost goal = updating(list, id@, endpoint@, public_key@);
    let mut changed = false;
    if !holds_text(&devices[i].endpoint, endpoint.as_str()) {
        devices[i].endpoint = Some(endpoint);
        changed = true;
    }
    let res = match &devices[i].public_key {
        None => None,
        Some(existing) => Some(same(existing.as_str(), public_key.as_str())),
    };
    let effect = match res {
        None => {
            devices[i].public_key = Some(public_key);
            Effect { value: true, save: true }
        },
        Some(true) => Effect { value: changed, save: changed },
        Some(false) => Effect { value: false, save: false },
    };
    proof {
        assert(devices@ =~= before.update(i as int, devices@[i as int]));
        list_update(before, i as int, devices@[i as int]);
        assert(devices@[i as int]@ == goal.devices[i as int]);
    }
    effect
}

/// Makes the records of one device one and reports whether that changed the
/// list.
pub fn compact_devices(devices: &mut Vec<DeviceInfo>) -> (res: Effect)
    ensures
        reaches(device_list(final(devices)@), res, compacting(device_list(old(devices)@))),
{
    let before = crate::device::clone_devices(devices);
    normalize_devices(devices);
    let changed = !crate::device::same_devices(devices, &before);
    Effect { value: changed, save: changed }
}

} // verus!
