//! What holds of every change of the device list.

use vstd::prelude::*;

use crate::device::{Device, TrustState};
use crate::registry::{
    advertised_as, compacting, demoted, described, first, first_absent, first_found, first_is_first,
    has_id, has_key, in_state, keys_conflict, known, marking, match_index, merged, normalized,
    prompted, rank, recording, revoking, same_advertised, trusted_peer, trusting,
    trusting_described, updating,
};

verus! {

/// How many devices of the list are trusted.
pub open spec fn trusted_count(devices: Seq<Device>) -> nat
    decreases devices.len(),
{
    if devices.len() == 0 {
        0
    } else {
        trusted_count(devices.drop_last()) + if devices.last().trust_state == TrustState::Trusted {
            1nat
        } else {
            0nat
        }
    }
}

spec fn one_if_trusted(device: Device) -> int {
    if device.trust_state == TrustState::Trusted {
        1
    } else {
        0
    }
}

proof fn trusted_count_push(devices: Seq<Device>, device: Device)
    ensures
        trusted_count(devices.push(device)) == trusted_count(devices) + one_if_trusted(device),
{
    assert(devices.push(device).drop_last() =~= devices);
}

proof fn trusted_count_update(devices: Seq<Device>, at: int, device: Device)
    requires
        0 <= at < devices.len(),
    ensures
        trusted_count(devices.update(at, device)) == trusted_count(devices) - one_if_trusted(
            devices[at],
        ) + one_if_trusted(device),
    decreases devices.len(),
{
    let changed = devices.update(at, device);
    if at == devices.len() - 1 {
        assert(changed.drop_last() =~= devices.drop_last());
    } else {
        trusted_count_update(devices.drop_last(), at, device);
        assert(changed.drop_last() =~= devices.drop_last().update(at, device));
    }
}

/// The record that a device belongs to is in the list.
pub proof fn match_index_in_range(devices: Seq<Device>, device: Device)
    ensures
        match_index(devices, device) is Some ==> 0 <= match_index(devices, device)->0
            < devices.len(),
{
    first_is_first(devices, has_id(device.id));
    if device.public_key is Some {
        first_is_first(devices, has_key(device.public_key->0));
    }
    first_is_first(devices, advertised_as(device));
}

/// Making the records of one device one never makes more devices trusted.
pub proof fn normalizing_creates_no_trust(devices: Seq<Device>)
    ensures
        trusted_count(normalized(devices)) <= trusted_count(devices),
    decreases devices.len(),
{
    if devices.len() > 0 {
        let before = normalized(devices.drop_last());
        let device = devices.last();
        normalizing_creates_no_trust(devices.drop_last());
        match_index_in_range(before, device);
        match match_index(before, device) {
            Some(i) => trusted_count_update(before, i, merged(before[i], device)),
            None => trusted_count_push(before, device),
        }
    }
}

/// Seeing a device on the network never makes more devices trusted: trust
/// comes from the user alone.
pub proof fn discovery_creates_no_trust(devices: Seq<Device>, seen: Device)
    requires
        seen.trust_state == TrustState::Discovered,
    ensures
        trusted_count(recording(devices, seen).devices) <= trusted_count(devices),
{
    match_index_in_range(devices, seen);
    normalizing_creates_no_trust(devices.push(seen));
    trusted_count_push(devices, seen);
    if let Some(i) = match_index(devices, seen) {
        let updated = in_state(seen, devices[i].trust_state);
        trusted_count_update(devices, i, updated);
        normalizing_creates_no_trust(devices.update(i, updated));
    }
}

/// An announcement of a blocked device changes nothing and is not stored.
pub proof fn blocked_devices_stay(devices: Seq<Device>, seen: Device)
    requires
        match_index(devices, seen) is Some,
        devices[match_index(devices, seen)->0].trust_state == TrustState::Blocked,
    ensures
        recording(devices, seen).devices == devices,
        !recording(devices, seen).value,
        !recording(devices, seen).save,
{
}

/// After a revocation every record with the identifier is revoked, and every
/// other record is as it was.
pub proof fn revocation_is_complete(devices: Seq<Device>, id: Seq<char>)
    ensures
        revoking(devices, id).devices.len() == devices.len(),
        forall|i: int|
            0 <= i < devices.len() ==> if devices[i].id == id {
                (#[trigger] revoking(devices, id).devices[i]) == in_state(
                    devices[i],
                    TrustState::Revoked,
                )
            } else {
                revoking(devices, id).devices[i] == devices[i]
            },
{
}

/// A revoked device that is seen again keeps its state and takes the new
/// address, so that the user can accept it again.
pub proof fn revoked_device_is_refreshed(devices: Seq<Device>, seen: Device)
    requires
        match_index(devices, seen) is Some,
        devices[match_index(devices, seen)->0].trust_state == TrustState::Revoked,
        !keys_conflict(devices[match_index(devices, seen)->0], seen),
    ensures
        recording(devices, seen).devices == devices.update(
            match_index(devices, seen)->0,
            in_state(seen, TrustState::Revoked),
        ),
{
    match_index_in_range(devices, seen);
    let i = match_index(devices, seen)->0;
    assert(devices.update(i, devices[i]) =~= devices);
}

proof fn match_index_ignores_state(devices: Seq<Device>, at: int, state: TrustState, seen: Device)
    requires
        0 <= at < devices.len(),
    ensures
        match_index(devices.update(at, in_state(devices[at], state)), seen) == match_index(
            devices,
            seen,
        ),
{
    let changed = devices.update(at, in_state(devices[at], state));
    first_ignores_state(devices, at, state, has_id(seen.id));
    if seen.public_key is Some {
        first_ignores_state(devices, at, state, has_key(seen.public_key->0));
    }
    first_ignores_state(devices, at, state, advertised_as(seen));
}

proof fn first_ignores_state(
    devices: Seq<Device>,
    at: int,
    state: TrustState,
    property: spec_fn(Device) -> bool,
)
    requires
        0 <= at < devices.len(),
        property(in_state(devices[at], state)) == property(devices[at]),
    ensures
        first(devices.update(at, in_state(devices[at], state)), property) == first(
            devices,
            property,
        ),
{
    let changed = devices.update(at, in_state(devices[at], state));
    first_is_first(devices, property);
    match first(devices, property) {
        Some(i) => {
            assert(property(changed[i]));
            assert forall|k: int| 0 <= k < i implies !property(#[trigger] changed[k]) by {
                assert(!property(devices[k]));
            }
            first_found(changed, property, i);
        },
        None => {
            assert forall|k: int| 0 <= k < changed.len() implies !property(
                #[trigger] changed[k],
            ) by {
                assert(!property(devices[k]));
            }
            first_absent(changed, property);
        },
    }
}

/// The user is asked about a device at most once: marking it again does
/// nothing.
pub proof fn prompt_only_once(devices: Seq<Device>, seen: Device)
    ensures
        !marking(marking(devices, seen).devices, seen).value,
        marking(marking(devices, seen).devices, seen).devices == marking(devices, seen).devices,
{
    match_index_in_range(devices, seen);
    if marking(devices, seen).value {
        let i = match_index(devices, seen)->0;
        match_index_ignores_state(devices, i, TrustState::Pending, seen);
    }
}

/// Once the user has been asked about a device of some name and platform, no
/// device of that name and platform is asked about, whatever its identifier
/// and key.
pub proof fn prompt_once_per_advertised_device(devices: Seq<Device>, seen: Device, again: Device)
    requires
        marking(devices, seen).value,
        devices[match_index(devices, seen)->0].name == seen.name,
        devices[match_index(devices, seen)->0].platform == seen.platform,
        again.name == seen.name,
        again.platform == seen.platform,
    ensures
        !marking(marking(devices, seen).devices, again).value,
{
    match_index_in_range(devices, seen);
    let i = match_index(devices, seen)->0;
    let after = marking(devices, seen).devices;
    assert(after[i].trust_state == TrustState::Pending);
    assert(prompted(after, seen.name, seen.platform));
}

/// Whether a record that comes later in a list belongs to an earlier one.
pub open spec fn belongs(earlier: Device, later: Device) -> bool {
    ||| earlier.id == later.id
    ||| later.public_key is Some && earlier.public_key == later.public_key
    ||| earlier.name == later.name && earlier.platform == later.platform && !other_key(
        earlier,
        later,
    )
}

/// Whether no two records of the list are of one device.
pub open spec fn settled(devices: Seq<Device>) -> bool {
    forall|i: int, j: int|
        0 <= i < j < devices.len() ==> !belongs(#[trigger] devices[i], #[trigger] devices[j])
}

/// A record finds no other exactly where it belongs to none.
pub proof fn unmatched_iff_belongs_to_none(devices: Seq<Device>, device: Device)
    ensures
        match_index(devices, device) is None <==> forall|i: int|
            0 <= i < devices.len() ==> !belongs(#[trigger] devices[i], device),
{
    first_is_first(devices, has_id(device.id));
    if device.public_key is Some {
        first_is_first(devices, has_key(device.public_key->0));
    }
    first_is_first(devices, advertised_as(device));
    match match_index(devices, device) {
        Some(i) => {
            assert(belongs(devices[i], device));
        },
        None => {
            assert forall|i: int| 0 <= i < devices.len() implies !belongs(
                #[trigger] devices[i],
                device,
            ) by {
                assert(!has_id(device.id)(devices[i]));
                if device.public_key is Some {
                    assert(!has_key(device.public_key->0)(devices[i]));
                }
                assert(!advertised_as(device)(devices[i]));
            }
        },
    }
}

/// Making the records of one device one never lengthens the list.
pub proof fn normalizing_never_lengthens(devices: Seq<Device>)
    ensures
        normalized(devices).len() <= devices.len(),
    decreases devices.len(),
{
    if devices.len() > 0 {
        normalizing_never_lengthens(devices.drop_last());
        match_index_in_range(normalized(devices.drop_last()), devices.last());
    }
}

/// Whether no two records of the list have the same identifier.
pub open spec fn distinct_identifiers(devices: Seq<Device>) -> bool {
    forall|i: int, j: int|
        0 <= i < j < devices.len() ==> (#[trigger] devices[i]).id != (#[trigger] devices[j]).id
}

/// Whether a record of the list has the identifier, the name and the platform
/// of this device.
pub open spec fn described_in(devices: Seq<Device>, device: Device) -> bool {
    exists|i: int|
        0 <= i < devices.len() && (#[trigger] devices[i]).id == device.id && devices[i].name
            == device.name && devices[i].platform == device.platform
}

/// Once the records of one device were made one, each identifier has one record
/// at most, and the identifier, the name and the platform of each record come
/// together from one record that there was.
pub proof fn normalizing_leaves_one_record_each(devices: Seq<Device>)
    ensures
        distinct_identifiers(normalized(devices)),
        forall|k: int|
            0 <= k < normalized(devices).len() ==> described_in(
                devices,
                #[trigger] normalized(devices)[k],
            ),
    decreases devices.len(),
{
    if devices.len() > 0 {
        let less = devices.drop_last();
        let last = devices[devices.len() - 1];
        normalizing_leaves_one_record_each(less);
        let before = normalized(less);
        let after = normalized(devices);
        match_index_in_range(before, last);
        first_is_first(before, has_id(last.id));
        assert forall|i: int, j: int| 0 <= i < j < after.len() implies (#[trigger] after[i]).id != (
        #[trigger] after[j]).id by {
            if j < before.len() {
                assert(before[i].id != before[j].id);
            }
            if first(before, has_id(last.id)) is None {
                assert(!has_id(last.id)(before[i]));
                if j < before.len() {
                    assert(!has_id(last.id)(before[j]));
                }
            }
        }
        assert forall|k: int| 0 <= k < after.len() implies described_in(
            devices,
            #[trigger] after[k],
        ) by {
            if k < before.len() && described_in(less, before[k]) {
                let i = choose|i: int|
                    0 <= i < less.len() && (#[trigger] less[i]).id == before[k].id && less[i].name
                        == before[k].name && less[i].platform == before[k].platform;
                assert(devices[i] == less[i]);
                assert(described_in(devices, before[k]));
            }
            if k < before.len() {
                assert(described_in(less, before[k]));
            }
            assert(described_in(devices, last));
        }
    }
}

/// Compacting leaves a list as it is exactly where no two of its records are
/// of one device.
pub proof fn compacting_changes_only_duplicates(devices: Seq<Device>)
    ensures
        normalized(devices) == devices <==> settled(devices),
    decreases devices.len(),
{
    if devices.len() == 0 {
        assert(normalized(devices) =~= devices);
    } else {
        let before = devices.drop_last();
        let last = devices.last();
        compacting_changes_only_duplicates(before);
        if settled(devices) {
            assert forall|i: int, j: int| 0 <= i < j < before.len() implies !belongs(
                #[trigger] before[i],
                #[trigger] before[j],
            ) by {
                assert(!belongs(devices[i], devices[j]));
            }
            assert forall|i: int| 0 <= i < before.len() implies !belongs(
                #[trigger] before[i],
                last,
            ) by {
                assert(!belongs(devices[i], devices[devices.len() - 1]));
            }
            unmatched_iff_belongs_to_none(before, last);
            assert(before.push(last) =~= devices);
        }
        if normalized(devices) == devices {
            normalizing_never_lengthens(before);
            let done = normalized(before);
            match_index_in_range(done, last);
            assert(match_index(done, last) is None);
            assert(done.push(last) == devices);
            assert(done =~= before) by {
                assert(done.push(last).drop_last() =~= done);
            }
            unmatched_iff_belongs_to_none(before, last);
            assert forall|i: int, j: int| 0 <= i < j < devices.len() implies !belongs(
                #[trigger] devices[i],
                #[trigger] devices[j],
            ) by {
                if j < devices.len() - 1 {
                    assert(!belongs(before[i], before[j]));
                } else {
                    assert(!belongs(before[i], last));
                }
            }
        }
    }
}

/// Trusting a known device of a list without duplicates makes it the one
/// trusted device of its name and platform. Every other record keeps all but,
/// for those of the same name and platform, its trust.
pub proof fn trusting_switches_device(devices: Seq<Device>, id: Seq<char>)
    requires
        settled(devices),
        first(devices, has_id(id)) is Some,
    ensures
        ({
            let i = first(devices, has_id(id))->0;
            let after = trusting(devices, id).devices;
            &&& after.len() == devices.len()
            &&& after[i] == in_state(devices[i], TrustState::Trusted)
            &&& forall|k: int|
                0 <= k < after.len() && after[k].trust_state == TrustState::Trusted
                    && after[k].name == devices[i].name && after[k].platform == devices[i].platform
                    ==> #[trigger] after[k] == after[i]
            &&& forall|k: int|
                0 <= k < after.len() && k != i ==> #[trigger] after[k] == in_state(
                    devices[k],
                    after[k].trust_state,
                )
        }),
{
    first_is_first(devices, has_id(id));
    let i = first(devices, has_id(id))->0;
    let device = devices[i];
    let changed = demoted(
        devices.update(i, in_state(device, TrustState::Trusted)),
        id,
        device.name,
        device.platform,
    );
    assert forall|a: int, b: int| 0 <= a < b < changed.len() implies !belongs(
        #[trigger] changed[a],
        #[trigger] changed[b],
    ) by {
        assert(!belongs(devices[a], devices[b]));
    }
    compacting_changes_only_duplicates(changed);
    let after = trusting(devices, id).devices;
    assert(after == changed);
    assert forall|k: int|
        0 <= k < after.len() && after[k].trust_state == TrustState::Trusted && after[k].name
            == devices[i].name && after[k].platform == devices[i].platform implies #[trigger] after[k]
        == after[i] by {
        if k < i {
            assert(!belongs(devices[k], devices[i]));
        } else if i < k {
            assert(!belongs(devices[i], devices[k]));
        }
    }
}

/// In a list without duplicates an announcement with a different key leaves
/// the trusted record it belongs to, and the whole list, as it was.
pub proof fn trusted_key_is_pinned(devices: Seq<Device>, seen: Device)
    requires
        settled(devices),
        match_index(devices, seen) is Some,
        devices[match_index(devices, seen)->0].trust_state == TrustState::Trusted,
        keys_conflict(devices[match_index(devices, seen)->0], seen),
    ensures
        recording(devices, seen).devices == devices,
        !recording(devices, seen).value,
{
    match_index_in_range(devices, seen);
    let i = match_index(devices, seen)->0;
    compacting_changes_only_duplicates(devices);
    assert(devices.push(seen).drop_last() =~= devices);
    assert(devices.update(i, devices[i]) =~= devices);
}

/// An address update touches one trusted record at most, and of it only the
/// address and a missing key.
pub proof fn update_touches_trusted_only(
    devices: Seq<Device>,
    id: Seq<char>,
    endpoint: Seq<char>,
    key: Seq<char>,
)
    ensures
        ({
            let after = updating(devices, id, endpoint, key).devices;
            &&& after.len() == devices.len()
            &&& forall|k: int|
                0 <= k < after.len() && devices[k].trust_state != TrustState::Trusted
                    ==> #[trigger] after[k] == devices[k]
            &&& forall|k: int|
                0 <= k < after.len() ==> (#[trigger] after[k]).id == devices[k].id && after[k].name
                    == devices[k].name && after[k].platform == devices[k].platform
                    && after[k].trust_state == devices[k].trust_state && (devices[k].public_key
                    is Some ==> after[k].public_key == devices[k].public_key)
        }),
{
    first_is_first(devices, trusted_peer(id, key));
}

/// Trusting a described device makes it the one trusted device of its name and
/// platform, where no two records are of one device once it is described. Every
/// other record keeps all but, for those of the same name and platform, its
/// trust.
pub proof fn described_device_is_trusted(devices: Seq<Device>, given: Device)
    requires
        settled(described(devices, given)),
    ensures
        ({
            let list = described(devices, given);
            let after = trusting_described(devices, given);
            &&& after == demoted(list, given.id, given.name, given.platform)
            &&& first(after, trusted_as(given)) is Some
            &&& forall|k: int|
                0 <= k < after.len() && after[k].trust_state == TrustState::Trusted
                    && after[k].name == given.name && after[k].platform == given.platform
                    ==> #[trigger] after[k] == after[first(after, trusted_as(given))->0]
        }),
{
    let list = described(devices, given);
    let changed = demoted(list, given.id, given.name, given.platform);
    first_is_first(devices, has_id(given.id));
    assert forall|a: int, b: int| 0 <= a < b < changed.len() implies !belongs(
        #[trigger] changed[a],
        #[trigger] changed[b],
    ) by {
        assert(!belongs(list[a], list[b]));
    }
    compacting_changes_only_duplicates(changed);
    let at = match first(devices, has_id(given.id)) {
        Some(i) => i,
        None => devices.len() as int,
    };
    assert(changed[at] == list[at]);
    assert(trusted_as(given)(changed[at]));
    first_is_first(changed, trusted_as(given));
    let found = first(changed, trusted_as(given))->0;
    assert forall|k: int|
        0 <= k < changed.len() && changed[k].trust_state == TrustState::Trusted && changed[k].name
            == given.name && changed[k].platform == given.platform implies #[trigger] changed[k]
        == changed[found] by {
        assert(changed[k].id == given.id);
        if k < found {
            assert(!belongs(changed[k], changed[found]));
        } else if found < k {
            assert(!belongs(changed[found], changed[k]));
        }
    }
}

/// A property of devices: it is the trusted one with the identifier, the name
/// and the platform of `given`, and with its address and key where it has them.
pub open spec fn trusted_as(given: Device) -> spec_fn(Device) -> bool {
    |device: Device|
        device.id == given.id && device.trust_state == TrustState::Trusted && device.name
            == given.name && device.platform == given.platform && (given.endpoint is Some
            ==> device.endpoint == given.endpoint) && (given.public_key is Some
            ==> device.public_key == given.public_key)
}

/// Where the record at `at` is found once the records of one device were made
/// one: in the place of the record that it belongs to, among those that come
/// before it, else in a place of its own behind them. No place is moved by
/// what comes later.
pub open spec fn place_of(devices: Seq<Device>, at: int) -> int {
    let before = normalized(devices.take(at));
    match match_index(before, devices[at]) {
        Some(i) => i,
        None => before.len() as int,
    }
}

proof fn normalizing_adds_no_identifier(devices: Seq<Device>, id: Seq<char>)
    requires
        forall|i: int| 0 <= i < devices.len() ==> (#[trigger] devices[i]).id != id,
    ensures
        forall|i: int|
            0 <= i < normalized(devices).len() ==> (#[trigger] normalized(devices)[i]).id != id,
    decreases devices.len(),
{
    if devices.len() > 0 {
        let less = devices.drop_last();
        let last = devices[devices.len() - 1];
        assert forall|i: int| 0 <= i < less.len() implies (#[trigger] less[i]).id != id by {
            assert(devices[i].id != id);
        }
        normalizing_adds_no_identifier(less, id);
        let before = normalized(less);
        let after = normalized(devices);
        match_index_in_range(before, last);
        assert forall|i: int| 0 <= i < after.len() implies (#[trigger] after[i]).id != id by {
            if i < before.len() {
                assert(before[i].id != id);
            }
        }
    }
}

/// What a place holds never becomes weaker by the records that come later.
proof fn later_records_weaken_nothing(devices: Seq<Device>, upto: int, place: int)
    requires
        0 <= upto <= devices.len(),
        0 <= place < normalized(devices.take(upto)).len(),
    ensures
        place < normalized(devices).len(),
        rank(normalized(devices)[place].trust_state) >= rank(
            normalized(devices.take(upto))[place].trust_state,
        ),
    decreases devices.len(),
{
    if upto == devices.len() {
        assert(devices.take(upto) =~= devices);
    } else {
        let less = devices.drop_last();
        assert(less.take(upto) =~= devices.take(upto));
        later_records_weaken_nothing(less, upto, place);
        match_index_in_range(normalized(less), devices.last());
    }
}

/// Making the records of one device one never weakens the decision in the first
/// record with some identifier: the record that it becomes part of is at least
/// as strong.
pub proof fn normalizing_weakens_no_decision(devices: Seq<Device>, id: Seq<char>)
    requires
        first(devices, has_id(id)) is Some,
    ensures
        ({
            let at = first(devices, has_id(id))->0;
            let place = place_of(devices, at);
            &&& 0 <= place < normalized(devices).len()
            &&& rank(normalized(devices)[place].trust_state) >= rank(devices[at].trust_state)
        }),
{
    first_is_first(devices, has_id(id));
    let at = first(devices, has_id(id))->0;
    let device = devices[at];
    let earlier = devices.take(at);
    let before = normalized(earlier);
    assert forall|i: int| 0 <= i < earlier.len() implies (#[trigger] earlier[i]).id != id by {
        assert(!has_id(id)(devices[i]));
    }
    normalizing_adds_no_identifier(earlier, id);
    match_index_in_range(before, device);
    first_is_first(before, has_id(id));
    if device.public_key is Some {
        first_is_first(before, has_key(device.public_key->0));
    }
    first_is_first(before, advertised_as(device));
    let upto = devices.take(at + 1);
    assert(upto.drop_last() =~= earlier);
    assert(upto.last() == device);
    later_records_weaken_nothing(devices, at + 1, place_of(devices, at));
}

/// Whether a record of the list is blocked.
pub open spec fn some_blocked(devices: Seq<Device>) -> bool {
    exists|i: int|
        0 <= i < devices.len() && (#[trigger] devices[i]).trust_state == TrustState::Blocked
}

proof fn normalizing_blocks_nothing(devices: Seq<Device>)
    requires
        !some_blocked(devices),
    ensures
        !some_blocked(normalized(devices)),
    decreases devices.len(),
{
    if devices.len() > 0 {
        let less = devices.drop_last();
        let last = devices[devices.len() - 1];
        assert forall|i: int| 0 <= i < less.len() implies (#[trigger] less[i]).trust_state
            != TrustState::Blocked by {
            assert(devices[i].trust_state != TrustState::Blocked);
        }
        normalizing_blocks_nothing(less);
        let before = normalized(less);
        let after = normalized(devices);
        match_index_in_range(before, last);
        assert forall|i: int| 0 <= i < after.len() implies (#[trigger] after[i]).trust_state
            != TrustState::Blocked by {
            if i < before.len() {
                assert(before[i].trust_state != TrustState::Blocked);
            }
        }
    }
}

/// Records that a device does not belong to become none that it belongs to.
proof fn merging_keeps_apart(existing: Device, incoming: Device, device: Device)
    requires
        !belongs(existing, device),
        !belongs(incoming, device),
    ensures
        !belongs(merged(existing, incoming), device),
{
}

/// A device that belongs to no record of a list belongs to none of the list in
/// which the records of one device were made one.
pub proof fn normalizing_keeps_apart(devices: Seq<Device>, device: Device)
    requires
        match_index(devices, device) is None,
    ensures
        match_index(normalized(devices), device) is None,
    decreases devices.len(),
{
    unmatched_iff_belongs_to_none(devices, device);
    unmatched_iff_belongs_to_none(normalized(devices), device);
    if devices.len() > 0 {
        let less = devices.drop_last();
        let last = devices[devices.len() - 1];
        assert forall|i: int| 0 <= i < less.len() implies !belongs(
            #[trigger] less[i],
            device,
        ) by {
            assert(!belongs(devices[i], device));
        }
        unmatched_iff_belongs_to_none(less, device);
        normalizing_keeps_apart(less, device);
        let before = normalized(less);
        let after = normalized(devices);
        unmatched_iff_belongs_to_none(before, device);
        match_index_in_range(before, last);
        assert forall|i: int| 0 <= i < after.len() implies !belongs(
            #[trigger] after[i],
            device,
        ) by {
            if i < before.len() {
                assert(!belongs(before[i], device));
                merging_keeps_apart(before[i], last, device);
            }
        }
    }
}

/// What seeing a device on the network does to the decisions of the user, in
/// any list. It never makes more devices trusted. A device that belongs to no
/// record is stored, as it was seen. A blocked record changes nothing and
/// nothing is stored. A revoked record stays revoked, with what was seen; or,
/// against a different key, stays at least as refused as it was, and revoked
/// where no record is blocked.
pub proof fn discovery_respects_decisions(devices: Seq<Device>, seen: Device)
    requires
        seen.trust_state == TrustState::Discovered,
    ensures
        ({
            let outcome = recording(devices, seen);
            let after = outcome.devices;
            &&& trusted_count(after) <= trusted_count(devices)
            &&& match match_index(devices, seen) {
                None => outcome.value && outcome.save && after == normalized(devices).push(seen)
                    && known(after, seen.id),
                Some(at) => match devices[at].trust_state {
                    TrustState::Blocked => after == devices && !outcome.value && !outcome.save,
                    TrustState::Revoked => if keys_conflict(devices[at], seen) {
                        let place = place_of(devices, at);
                        &&& 0 <= place < after.len()
                        &&& rank(after[place].trust_state) >= rank(TrustState::Revoked)
                        &&& !some_blocked(devices) ==> after[place].trust_state
                            == TrustState::Revoked
                    } else {
                        after == devices.update(at, in_state(seen, TrustState::Revoked))
                    },
                    _ => true,
                },
            }
        }),
{
    discovery_creates_no_trust(devices, seen);
    match_index_in_range(devices, seen);
    let more = devices.push(seen);
    assert(more.drop_last() =~= devices);
    match match_index(devices, seen) {
        None => {
            normalizing_keeps_apart(devices, seen);
            let after = normalized(devices).push(seen);
            assert(after[after.len() - 1].id == seen.id);
        },
        Some(at) => {
            if devices[at].trust_state == TrustState::Revoked {
                if keys_conflict(devices[at], seen) {
                    first_is_first(devices, has_id(seen.id));
                    first_is_first(devices, has_key(seen.public_key->0));
                    first_is_first(devices, advertised_as(seen));
                    assert(first(devices, has_id(seen.id)) == Some(at));
                    assert(first(more, has_id(seen.id)) == Some(at));
                    assert(more.take(at) =~= devices.take(at));
                    normalizing_weakens_no_decision(more, seen.id);
                    if !some_blocked(devices) {
                        assert forall|i: int| 0 <= i < more.len() implies (
                        #[trigger] more[i]).trust_state != TrustState::Blocked by {
                            if i < devices.len() {
                                assert(devices[i].trust_state != TrustState::Blocked);
                            }
                        }
                        normalizing_blocks_nothing(more);
                        let after = normalized(more);
                        assert(after[place_of(more, at)].trust_state != TrustState::Blocked);
                    }
                } else {
                    revoked_device_is_refreshed(devices, seen);
                }
            }
        },
    }
}

/// Whether two records differ in the key that each of them has.
pub open spec fn other_key(left: Device, right: Device) -> bool {
    left.public_key is Some && right.public_key is Some && left.public_key->0
        != right.public_key->0
}

/// Whether a device belongs to the record at `at` and to no other record: by
/// its identifier, by its key, or by its name and platform where no two keys
/// speak against it.
pub open spec fn only_match(devices: Seq<Device>, at: int, device: Device) -> bool {
    &&& 0 <= at < devices.len()
    &&& belongs(devices[at], device)
    &&& forall|j: int| 0 <= j < devices.len() && j != at ==> !belongs(#[trigger] devices[j], device)
}

/// The record that a device is taken for: the first with its identifier; where
/// there is none, the first with its key; where there is none either, the first
/// of its name and platform whose key does not differ.
#[verifier::rlimit(40)]
pub proof fn device_is_matched_by_identifier_first(devices: Seq<Device>, device: Device, at: int)
    requires
        0 <= at < devices.len(),
    ensures
        devices[at].id == device.id && (forall|j: int|
            0 <= j < at ==> (#[trigger] devices[j]).id != device.id) ==> match_index(
            devices,
            device,
        ) == Some(at),
        (forall|j: int| 0 <= j < devices.len() ==> (#[trigger] devices[j]).id != device.id)
            && device.public_key is Some && devices[at].public_key == device.public_key && (forall|
            j: int,
        |
            0 <= j < at ==> (#[trigger] devices[j]).public_key != device.public_key)
            ==> match_index(devices, device) == Some(at),
        (forall|j: int|
            0 <= j < devices.len() ==> (#[trigger] devices[j]).id != device.id && (
            device.public_key is Some ==> devices[j].public_key != device.public_key))
            && devices[at].name == device.name && devices[at].platform == device.platform
            && !other_key(devices[at], device) && (forall|j: int|
            0 <= j < at ==> (#[trigger] devices[j]).name != device.name || devices[j].platform
                != device.platform || other_key(devices[j], device)) ==> match_index(
            devices,
            device,
        ) == Some(at),
{
    let by_id = has_id(device.id);
    let alike = advertised_as(device);
    first_is_first(devices, by_id);
    first_is_first(devices, alike);
    if device.public_key is Some {
        first_is_first(devices, has_key(device.public_key->0));
    }
    if devices[at].id == device.id && (forall|j: int|
        0 <= j < at ==> (#[trigger] devices[j]).id != device.id) {
        assert(by_id(devices[at]));
        let i = first(devices, by_id)->0;
        assert(by_id(devices[i]));
    }
    if forall|j: int| 0 <= j < devices.len() ==> (#[trigger] devices[j]).id != device.id {
        assert forall|j: int| 0 <= j < devices.len() implies !by_id(#[trigger] devices[j]) by {}
        first_absent(devices, by_id);
        if device.public_key is Some && devices[at].public_key == device.public_key {
            let by_key = has_key(device.public_key->0);
            assert(by_key(devices[at]));
            let i = first(devices, by_key)->0;
            assert(by_key(devices[i]));
        }
        if forall|j: int|
            0 <= j < devices.len() ==> (device.public_key is Some ==> (
            #[trigger] devices[j]).public_key != device.public_key) {
            if device.public_key is Some {
                first_absent(devices, has_key(device.public_key->0));
            }
            if devices[at].name == device.name && devices[at].platform == device.platform
                && !other_key(devices[at], device) {
                assert(alike(devices[at]));
                let i = first(devices, alike)->0;
                assert(alike(devices[i]));
            }
        }
    }
}

/// A device is taken for the only record that it belongs to.
pub proof fn only_match_is_found(devices: Seq<Device>, at: int, device: Device)
    requires
        only_match(devices, at, device),
    ensures
        match_index(devices, device) == Some(at),
{
    match_index_in_range(devices, device);
    unmatched_iff_belongs_to_none(devices, device);
    first_is_first(devices, has_id(device.id));
    if device.public_key is Some {
        first_is_first(devices, has_key(device.public_key->0));
    }
    first_is_first(devices, advertised_as(device));
    let i = match_index(devices, device)->0;
    assert(belongs(devices[i], device));
}

/// A record may be replaced by one that belongs to no other.
pub proof fn replacing_keeps_settled(devices: Seq<Device>, at: int, device: Device)
    requires
        settled(devices),
        0 <= at < devices.len(),
        forall|j: int|
            0 <= j < devices.len() && j != at ==> !belongs(#[trigger] devices[j], device),
    ensures
        settled(devices.update(at, device)),
{
    let after = devices.update(at, device);
    assert forall|a: int, b: int| 0 <= a < b < after.len() implies !belongs(
        #[trigger] after[a],
        #[trigger] after[b],
    ) by {
        assert(!belongs(devices[a], devices[b]));
        if a == at {
            assert(!belongs(devices[b], device));
        }
        if b == at {
            assert(!belongs(devices[a], device));
        }
    }
}

/// A device that is seen again keeps the decision of the user, whatever else of
/// it has changed: its record becomes the device as it was seen, in the state
/// that it had, and no other record changes. It is stored, and news, exactly
/// where that differs from what the record was. The list has no two records of
/// one device, the device belongs to this record alone, its key is not another,
/// and it is not blocked.
pub proof fn seen_device_keeps_its_state(devices: Seq<Device>, at: int, seen: Device)
    requires
        settled(devices),
        only_match(devices, at, seen),
        devices[at].trust_state != TrustState::Blocked,
        !other_key(devices[at], seen),
    ensures
        ({
            let now = Device { trust_state: devices[at].trust_state, ..seen };
            let outcome = recording(devices, seen);
            &&& outcome.devices == devices.update(at, now)
            &&& outcome.value == (devices[at] != now)
            &&& outcome.save == (devices[at] != now)
        }),
{
    only_match_is_found(devices, at, seen);
    let now = Device { trust_state: devices[at].trust_state, ..seen };
    replacing_keeps_settled(devices, at, now);
    compacting_changes_only_duplicates(devices.update(at, now));
    assert(devices.update(at, devices[at]) =~= devices);
}

/// A device that is seen with another key than its record has is not news. A
/// trusted record stays as it is. Any other takes the new key, and everything
/// else but its state, and its address where none was seen. A blocked one is
/// left alone. The list has no two records of one device, and the device belongs
/// to this record alone.
pub proof fn other_key_is_no_news(devices: Seq<Device>, at: int, seen: Device)
    requires
        settled(devices),
        only_match(devices, at, seen),
        seen.trust_state == TrustState::Discovered,
        other_key(devices[at], seen),
    ensures
        ({
            let outcome = recording(devices, seen);
            let now = Device {
                trust_state: devices[at].trust_state,
                endpoint: if seen.endpoint is Some {
                    seen.endpoint
                } else {
                    devices[at].endpoint
                },
                ..seen
            };
            &&& !outcome.value
            &&& outcome.save == (devices[at].trust_state != TrustState::Blocked)
            &&& outcome.devices == if devices[at].trust_state == TrustState::Trusted
                || devices[at].trust_state == TrustState::Blocked {
                devices
            } else {
                devices.update(at, now)
            }
        }),
{
    only_match_is_found(devices, at, seen);
    compacting_changes_only_duplicates(devices);
    assert(devices.push(seen).drop_last() =~= devices);
    assert(devices.update(at, devices[at]) =~= devices);
}

/// A device that belongs to no record is added at the end, as it was seen, and
/// is news. The list has no two records of one device.
pub proof fn unknown_device_is_added(devices: Seq<Device>, seen: Device)
    requires
        settled(devices),
        forall|j: int| 0 <= j < devices.len() ==> !belongs(#[trigger] devices[j], seen),
    ensures
        recording(devices, seen).devices == devices.push(seen),
        recording(devices, seen).value,
        recording(devices, seen).save,
        settled(devices.push(seen)),
{
    unmatched_iff_belongs_to_none(devices, seen);
    compacting_changes_only_duplicates(devices);
    assert(devices.push(seen).drop_last() =~= devices);
}

/// The user is asked about a device exactly where its record is merely
/// discovered and no record of that name and platform waits for an answer
/// already. Then its record waits, and no other changes; otherwise nothing
/// does. The device belongs to this record alone.
pub proof fn prompt_is_due_once(devices: Seq<Device>, at: int, seen: Device)
    requires
        only_match(devices, at, seen),
    ensures
        ({
            let outcome = marking(devices, seen);
            let due = devices[at].trust_state == TrustState::Discovered && forall|j: int|
                0 <= j < devices.len() ==> !((#[trigger] devices[j]).trust_state
                    == TrustState::Pending && devices[j].name == seen.name && devices[j].platform
                    == seen.platform);
            &&& outcome.value == due
            &&& outcome.save == due
            &&& outcome.devices == if due {
                devices.update(at, Device { trust_state: TrustState::Pending, ..devices[at] })
            } else {
                devices
            }
        }),
{
    only_match_is_found(devices, at, seen);
    let waits = exists|j: int|
        0 <= j < devices.len() && (#[trigger] devices[j]).trust_state == TrustState::Pending
            && devices[j].name == seen.name && devices[j].platform == seen.platform;
    assert(prompted(devices, seen.name, seen.platform) == waits);
}

/// Two records that become one: the later one's identifier, name and platform
/// hold, its address where it has one, and the decision that is the firmest of
/// the two: blocked, then revoked, trusted, pending, discovered. The later key
/// holds where the earlier record has none, or where the result is not trusted.
/// But a trusted record stays as it is against another key.
pub proof fn firmest_decision_holds(existing: Device, incoming: Device)
    ensures
        ({
            let one = merged(existing, incoming);
            let either = |state: TrustState|
                existing.trust_state == state || incoming.trust_state == state;
            if existing.trust_state == TrustState::Trusted && other_key(existing, incoming) {
                one == existing
            } else {
                &&& one.id == incoming.id
                &&& one.name == incoming.name
                &&& one.platform == incoming.platform
                &&& one.endpoint == if incoming.endpoint is Some {
                    incoming.endpoint
                } else {
                    existing.endpoint
                }
                &&& one.trust_state == if either(TrustState::Blocked) {
                    TrustState::Blocked
                } else if either(TrustState::Revoked) {
                    TrustState::Revoked
                } else if either(TrustState::Trusted) {
                    TrustState::Trusted
                } else if either(TrustState::Pending) {
                    TrustState::Pending
                } else {
                    TrustState::Discovered
                }
                &&& incoming.public_key is None ==> one.public_key == existing.public_key
                &&& existing.public_key is None ==> one.public_key == incoming.public_key
                &&& incoming.public_key is Some && one.trust_state != TrustState::Trusted
                    ==> one.public_key == incoming.public_key
                &&& existing.public_key is Some && one.trust_state == TrustState::Trusted
                    ==> one.public_key == existing.public_key
            }
        }),
{
}

/// How a list with one more record is made a list with one record for each
/// device, where no two of the others are of one device: the record joins the
/// one that it belongs to, which becomes one of the two; or it is added.
pub proof fn one_more_record_joins_its_device(devices: Seq<Device>, device: Device, at: int)
    requires
        settled(devices),
    ensures
        only_match(devices, at, device) ==> normalized(devices.push(device)) == devices.update(
            at,
            merged(devices[at], device),
        ),
        (forall|j: int| 0 <= j < devices.len() ==> !belongs(#[trigger] devices[j], device))
            ==> normalized(devices.push(device)) == devices.push(device),
{
    compacting_changes_only_duplicates(devices);
    assert(devices.push(device).drop_last() =~= devices);
    if only_match(devices, at, device) {
        only_match_is_found(devices, at, device);
    }
    unmatched_iff_belongs_to_none(devices, device);
}

/// Revoking reports, and has the list stored, exactly where a record has the
/// identifier; after it none with that identifier is in any other state, and
/// nothing else has changed.
pub proof fn revoking_reports_what_it_did(devices: Seq<Device>, id: Seq<char>)
    ensures
        ({
            let outcome = revoking(devices, id);
            let there = exists|i: int| 0 <= i < devices.len() && (#[trigger] devices[i]).id == id;
            &&& outcome.value == there
            &&& outcome.save == there
            &&& !there ==> outcome.devices == devices
            &&& outcome.devices.len() == devices.len()
            &&& forall|i: int|
                0 <= i < devices.len() ==> #[trigger] outcome.devices[i] == if devices[i].id == id {
                    Device { trust_state: TrustState::Revoked, ..devices[i] }
                } else {
                    devices[i]
                }
        }),
{
    let outcome = revoking(devices, id);
    assert(known(devices, id) == exists|i: int|
        0 <= i < devices.len() && (#[trigger] devices[i]).id == id);
    if !known(devices, id) {
        assert(outcome.devices =~= devices);
    }
}

/// Trusting a known device makes it trusted and takes trust from every other
/// device of its name and platform, which are discovered again; nothing else
/// changes, and the list is stored. An identifier that no record has changes
/// nothing. The list has no two records of one device.
#[verifier::rlimit(40)]
pub proof fn trust_moves_to_the_device(devices: Seq<Device>, at: int, id: Seq<char>)
    requires
        settled(devices),
    ensures
        ({
            let outcome = trusting(devices, id);
            &&& (forall|j: int| 0 <= j < devices.len() ==> (#[trigger] devices[j]).id != id)
                ==> outcome.devices == devices && !outcome.value && !outcome.save
            &&& 0 <= at < devices.len() && devices[at].id == id ==> {
                &&& outcome.value
                &&& outcome.save
                &&& outcome.devices.len() == devices.len()
                &&& forall|j: int|
                    0 <= j < devices.len() ==> #[trigger] outcome.devices[j] == if j == at {
                        Device { trust_state: TrustState::Trusted, ..devices[j] }
                    } else if devices[j].trust_state == TrustState::Trusted && devices[j].name
                        == devices[at].name && devices[j].platform == devices[at].platform {
                        Device { trust_state: TrustState::Discovered, ..devices[j] }
                    } else {
                        devices[j]
                    }
            }
        }),
{
    first_is_first(devices, has_id(id));
    if 0 <= at < devices.len() && devices[at].id == id {
        assert(has_id(id)(devices[at]));
        let i = first(devices, has_id(id))->0;
        assert(has_id(id)(devices[i]));
        if i < at {
            assert(!belongs(devices[i], devices[at]));
        }
        assert(i == at);
        let device = devices[at];
        let changed = demoted(
            devices.update(at, in_state(device, TrustState::Trusted)),
            id,
            device.name,
            device.platform,
        );
        assert forall|a: int, b: int| 0 <= a < b < changed.len() implies !belongs(
            #[trigger] changed[a],
            #[trigger] changed[b],
        ) by {
            assert(!belongs(devices[a], devices[b]));
        }
        compacting_changes_only_duplicates(changed);
        assert forall|j: int| 0 <= j < devices.len() implies #[trigger] changed[j] == if j == at {
            Device { trust_state: TrustState::Trusted, ..devices[j] }
        } else if devices[j].trust_state == TrustState::Trusted && devices[j].name
            == devices[at].name && devices[j].platform == devices[at].platform {
            Device { trust_state: TrustState::Discovered, ..devices[j] }
        } else {
            devices[j]
        } by {
            if j < at {
                assert(!belongs(devices[j], devices[at]));
            } else if at < j {
                assert(!belongs(devices[at], devices[j]));
            }
        }
    }
}

/// An address update in primitive terms: the first trusted record with the
/// identifier or the key takes the address, and the key where it has none; that
/// is stored and reported where it changes the record. A record with another
/// key takes the address until the file is read again: it is neither stored nor
/// reported. Without such a record nothing changes.
pub proof fn address_is_taken_by_the_first_peer(
    devices: Seq<Device>,
    at: int,
    id: Seq<char>,
    endpoint: Seq<char>,
    key: Seq<char>,
)
    ensures
        ({
            let peer = |device: Device|
                device.trust_state == TrustState::Trusted && (device.id == id || device.public_key
                    == Some(key));
            let outcome = updating(devices, id, endpoint, key);
            &&& (forall|j: int| 0 <= j < devices.len() ==> !peer(#[trigger] devices[j]))
                ==> outcome.devices == devices && !outcome.value && !outcome.save
            &&& 0 <= at < devices.len() && peer(devices[at]) && (forall|j: int|
                0 <= j < at ==> !peer(#[trigger] devices[j])) ==> {
                let now = Device {
                    endpoint: Some(endpoint),
                    public_key: Some(key),
                    ..devices[at]
                };
                if devices[at].public_key is None || devices[at].public_key == Some(key) {
                    &&& outcome.devices == devices.update(at, now)
                    &&& outcome.value == (devices[at] != now)
                    &&& outcome.save == (devices[at] != now)
                } else {
                    &&& outcome.devices == devices.update(
                        at,
                        Device { endpoint: Some(endpoint), ..devices[at] },
                    )
                    &&& !outcome.value && !outcome.save
                }
            }
        }),
{
    let peer = |device: Device|
        device.trust_state == TrustState::Trusted && (device.id == id || device.public_key == Some(
            key,
        ));
    let same = trusted_peer(id, key);
    first_is_first(devices, same);
    assert forall|j: int| 0 <= j < devices.len() implies same(#[trigger] devices[j]) == peer(
        devices[j],
    ) by {}
    if 0 <= at < devices.len() && peer(devices[at]) && (forall|j: int|
        0 <= j < at ==> !peer(#[trigger] devices[j])) {
        assert forall|j: int| 0 <= j < at implies !same(#[trigger] devices[j]) by {
            assert(!peer(devices[j]));
        }
        first_found(devices, same, at);
    }
    if forall|j: int| 0 <= j < devices.len() ==> !peer(#[trigger] devices[j]) {
        assert forall|j: int| 0 <= j < devices.len() implies !same(#[trigger] devices[j]) by {
            assert(!peer(devices[j]));
        }
        first_absent(devices, same);
    }
}

/// Compacting leaves the list with one record for each device, and reports and
/// stores it exactly where that changed it; where no two records are of one
/// device, it does not.
pub proof fn compacting_reports_changes(devices: Seq<Device>)
    ensures
        ({
            let outcome = compacting(devices);
            &&& outcome.value == (outcome.devices != devices)
            &&& outcome.save == (outcome.devices != devices)
            &&& outcome.devices == devices <==> settled(devices)
            &&& distinct_identifiers(outcome.devices)
            &&& outcome.devices == normalized(devices)
        }),
{
    compacting_changes_only_duplicates(devices);
    normalizing_leaves_one_record_each(devices);
}

/// Trusting a device that the user describes, where no record has its
/// identifier: it is added, trusted, as described. Where one has it, that one
/// becomes as described, trusted, and keeps the address and the key that the
/// description leaves out. Every other trusted device of its name and platform
/// is discovered again; nothing else changes. No two records are of one device
/// once it is described.
#[verifier::rlimit(40)]
pub proof fn described_device_is_stored(devices: Seq<Device>, at: int, given: Device)
    requires
        distinct_identifiers(devices),
        0 <= at <= devices.len(),
        at < devices.len() ==> devices[at].id == given.id,
        at == devices.len() ==> forall|j: int|
            0 <= j < devices.len() ==> (#[trigger] devices[j]).id != given.id,
        settled(redescribed_list(devices, at, given)),
    ensures
        ({
            let list = redescribed_list(devices, at, given);
            let after = trusting_described(devices, given);
            &&& after.len() == list.len()
            &&& forall|j: int|
                0 <= j < list.len() ==> #[trigger] after[j] == if j != at && list[j].trust_state
                    == TrustState::Trusted && list[j].name == given.name && list[j].platform
                    == given.platform {
                    Device { trust_state: TrustState::Discovered, ..list[j] }
                } else {
                    list[j]
                }
        }),
{
    let list = redescribed_list(devices, at, given);
    first_is_first(devices, has_id(given.id));
    if at < devices.len() {
        assert(has_id(given.id)(devices[at]));
        let i = first(devices, has_id(given.id))->0;
        assert(has_id(given.id)(devices[i]));
        if i < at {
            assert(devices[i].id != devices[at].id);
        }
    } else {
        assert forall|j: int| 0 <= j < devices.len() implies !has_id(given.id)(
            #[trigger] devices[j],
        ) by {
            assert(devices[j].id != given.id);
        }
        first_absent(devices, has_id(given.id));
    }
    assert(described(devices, given) =~= list);
    described_device_is_trusted(devices, given);
    let after = trusting_described(devices, given);
    assert forall|j: int| 0 <= j < list.len() implies #[trigger] after[j] == if j != at
        && list[j].trust_state == TrustState::Trusted && list[j].name == given.name
        && list[j].platform == given.platform {
        Device { trust_state: TrustState::Discovered, ..list[j] }
    } else {
        list[j]
    } by {
        if j < at {
            assert(!belongs(list[j], list[at]));
        } else if at < j {
            assert(!belongs(list[at], list[j]));
        }
    }
}

/// A list in which the record at `at`, or one behind all others, is a described
/// device, trusted.
pub open spec fn redescribed_list(devices: Seq<Device>, at: int, given: Device) -> Seq<Device> {
    if at < devices.len() {
        devices.update(
            at,
            Device {
                trust_state: TrustState::Trusted,
                endpoint: if given.endpoint is Some {
                    given.endpoint
                } else {
                    devices[at].endpoint
                },
                public_key: if given.public_key is Some {
                    given.public_key
                } else {
                    devices[at].public_key
                },
                ..given
            },
        )
    } else {
        devices.push(Device { trust_state: TrustState::Trusted, ..given })
    }
}

/// How one more record joins a list in which the records of one device were made
/// one: it is merged into the first with its identifier; where there is none,
/// into the first with its key; where there is none either, into the first of
/// its name and platform whose key does not differ; and otherwise it is added.
#[verifier::rlimit(40)]
pub proof fn record_joins_its_first_match(devices: Seq<Device>, device: Device, at: int)
    ensures
        ({
            let list = normalized(devices);
            let one = normalized(devices.push(device));
            let joined = list.update(at, merged(list[at], device));
            let by_id = exists|j: int|
                0 <= j < list.len() && (#[trigger] list[j]).id == device.id;
            let by_key = device.public_key is Some && exists|j: int|
                0 <= j < list.len() && (#[trigger] list[j]).public_key == device.public_key;
            &&& 0 <= at < list.len() && list[at].id == device.id ==> one == joined
            &&& 0 <= at < list.len() && !by_id && device.public_key is Some && list[at].public_key
                == device.public_key && (forall|j: int|
                0 <= j < at ==> (#[trigger] list[j]).public_key != device.public_key) ==> one
                == joined
            &&& 0 <= at < list.len() && !by_id && !by_key && list[at].name == device.name
                && list[at].platform == device.platform && !other_key(list[at], device) && (forall|
                j: int,
            |
                0 <= j < at ==> (#[trigger] list[j]).name != device.name || list[j].platform
                    != device.platform || other_key(list[j], device)) ==> one == joined
            &&& (forall|j: int| 0 <= j < list.len() ==> !belongs(#[trigger] list[j], device))
                ==> one == list.push(device)
        }),
{
    let list = normalized(devices);
    assert(devices.push(device).drop_last() =~= devices);
    normalizing_leaves_one_record_each(devices);
    unmatched_iff_belongs_to_none(list, device);
    if 0 <= at < list.len() {
        device_is_matched_by_identifier_first(list, device, at);
        if list[at].id == device.id {
            assert forall|j: int| 0 <= j < at implies (#[trigger] list[j]).id != device.id by {
                assert(list[j].id != list[at].id);
            }
        }
    }
}

/// What seeing a device does to any list, given the record that it is taken for.
/// A blocked record, and one that is as it was seen, leave everything as it is.
/// Another key puts what was seen beside the record, as far as merging allows.
/// Otherwise the record becomes what was seen, in the state that it had, and
/// then the records of one device are made one, but not for a revoked record.
pub proof fn seen_device_replaces_its_record(devices: Seq<Device>, at: int, seen: Device)
    requires
        match_index(devices, seen) == Some(at),
    ensures
        ({
            let outcome = recording(devices, seen);
            let now = Device { trust_state: devices[at].trust_state, ..seen };
            if devices[at].trust_state == TrustState::Blocked {
                outcome.devices == devices && !outcome.value && !outcome.save
            } else if other_key(devices[at], seen) {
                outcome.devices == normalized(devices.push(seen)) && !outcome.value && outcome.save
            } else if devices[at] == now {
                outcome.devices == devices && !outcome.value && !outcome.save
            } else {
                &&& outcome.value && outcome.save
                &&& outcome.devices == if devices[at].trust_state == TrustState::Revoked {
                    devices.update(at, now)
                } else {
                    normalized(devices.update(at, now))
                }
            }
        }),
{
    match_index_in_range(devices, seen);
}

/// A lookup finds the first device with the identifier that is trusted, and none
/// that is not.
pub proof fn trusted_lookup_finds_trusted_device(devices: Seq<Device>, id: Seq<char>, at: int)
    ensures
        0 <= at < devices.len() && devices[at].id == id && devices[at].trust_state
            == TrustState::Trusted && (forall|j: int|
            0 <= j < at ==> (#[trigger] devices[j]).id != id || devices[j].trust_state
                != TrustState::Trusted) ==> first(
            devices,
            crate::trust_store::trusted_with_id(id),
        ) == Some(at),
        (forall|j: int|
            0 <= j < devices.len() ==> (#[trigger] devices[j]).id != id || devices[j].trust_state
                != TrustState::Trusted) ==> first(
            devices,
            crate::trust_store::trusted_with_id(id),
        ) is None,
        0 <= at < devices.len() && devices[at].id == id && (forall|j: int|
            0 <= j < at ==> (#[trigger] devices[j]).id != id) ==> first(devices, has_id(id))
            == Some(at),
{
    let property = crate::trust_store::trusted_with_id(id);
    first_is_first(devices, property);
    first_is_first(devices, has_id(id));
    if 0 <= at < devices.len() && devices[at].id == id {
        assert(has_id(id)(devices[at]));
        if devices[at].trust_state == TrustState::Trusted {
            assert(property(devices[at]));
        }
    }
    if first(devices, property) is Some {
        let i = first(devices, property)->0;
        assert(property(devices[i]));
        assert(devices[i].id == id && devices[i].trust_state == TrustState::Trusted);
    }
    if first(devices, has_id(id)) is Some {
        let i = first(devices, has_id(id))->0;
        assert(devices[i].id == id);
    }
}

/// After a device was trusted, known or described, no two records have one
/// identifier, however many there were, and no record is of another device than
/// there was or was given.
pub proof fn trusting_leaves_one_record_each(devices: Seq<Device>, id: Seq<char>, given: Device)
    ensures
        known(devices, id) ==> distinct_identifiers(trusting(devices, id).devices) && forall|k: int|
            0 <= k < trusting(devices, id).devices.len() ==> described_in(
                devices,
                #[trigger] trusting(devices, id).devices[k],
            ),
        !known(devices, id) ==> trusting(devices, id).devices == devices,
        distinct_identifiers(trusting_described(devices, given)),
        forall|k: int|
            0 <= k < trusting_described(devices, given).len() ==> described_in(
                devices.push(given),
                #[trigger] trusting_described(devices, given)[k],
            ),
{
    first_is_first(devices, has_id(id));
    if known(devices, id) {
        let i = first(devices, has_id(id))->0;
        let j = choose|j: int| 0 <= j < devices.len() && (#[trigger] devices[j]).id == id;
        assert(has_id(id)(devices[j]));
        let device = devices[i];
        let list = demoted(
            devices.update(i, in_state(device, TrustState::Trusted)),
            id,
            device.name,
            device.platform,
        );
        normalizing_leaves_one_record_each(list);
        let after = trusting(devices, id).devices;
        assert forall|k: int| 0 <= k < after.len() implies described_in(
            devices,
            #[trigger] after[k],
        ) by {
            assert(described_in(list, normalized(list)[k]));
            let m = choose|m: int|
                0 <= m < list.len() && (#[trigger] list[m]).id == after[k].id && list[m].name
                    == after[k].name && list[m].platform == after[k].platform;
            assert(devices[m].id == after[k].id && devices[m].name == after[k].name
                && devices[m].platform == after[k].platform);
        }
    } else if first(devices, has_id(id)) is Some {
        assert(has_id(id)(devices[first(devices, has_id(id))->0]));
    }
    let there = described(devices, given);
    let list = demoted(there, given.id, given.name, given.platform);
    let all = devices.push(given);
    normalizing_leaves_one_record_each(list);
    first_is_first(devices, has_id(given.id));
    let after = trusting_described(devices, given);
    assert forall|k: int| 0 <= k < after.len() implies described_in(all, #[trigger] after[k]) by {
        assert(described_in(list, normalized(list)[k]));
        let m = choose|m: int|
            0 <= m < list.len() && (#[trigger] list[m]).id == after[k].id && list[m].name
                == after[k].name && list[m].platform == after[k].platform;
        assert(there[m].id == after[k].id);
        match first(devices, has_id(given.id)) {
            Some(i) => {
                assert(has_id(given.id)(devices[i]));
                if m == i {
                    assert(all[devices.len() as int] == given);
                } else {
                    assert(all[m] == devices[m]);
                }
            },
            None => {
                assert(all[m].id == after[k].id);
            },
        }
    }
}

} // verus!
