//! What becomes of the store when devices are seen on the network, from what
//! its file held to what it holds then.

use vstd::prelude::*;

use crate::device::{trusted, Device, TrustState};
use crate::discovery::Sighted;
use crate::presence::{
    after, found, noting, opened, recorded_all, recorded_one, refreshed, refreshed_each,
    same_identity, scanned_session, to_write, Notice, Session,
};
use crate::presence_laws::{
    genuine, genuine_is_writable, genuine_key_is_kept, lasting, lasting_reads_back,
};
use crate::registry::{
    first, first_absent, first_found, first_is_first, marking, normalized, recording, trusted_peer,
    updating, Outcome,
};
use crate::registry_laws::{
    address_is_taken_by_the_first_peer, belongs, compacting_changes_only_duplicates,
    distinct_identifiers, normalizing_leaves_one_record_each, only_match, other_key,
    other_key_is_no_news, prompt_is_due_once, seen_device_keeps_its_state, settled,
    unknown_device_is_added,
};
use crate::trust_store::{devices_in, storable, stored};
use crate::trust_store_laws::file_holds_storable_devices;

verus! {

/// What a file holds after an operation that hands back what has to be written,
/// if anything.
pub open spec fn file_after(contents: Seq<char>, written: Option<Seq<char>>) -> Seq<char> {
    match written {
        Some(text) => text,
        None => contents,
    }
}

/// Whether a file holds no two records of one device, and gives its records
/// back as they are.
pub open spec fn orderly(contents: Seq<char>) -> bool {
    settled(devices_in(contents)) && forall|i: int|
        0 <= i < devices_in(contents).len() ==> stored(#[trigger] devices_in(contents)[i])
            == devices_in(contents)[i]
}

/// Whether the file gives a device back as it is.
pub open spec fn keeps(device: Device) -> bool {
    storable(device) && stored(device) == device
}

/// A device as a sighting shows it.
pub open spec fn shown(sighted: Sighted) -> Device {
    Device {
        id: sighted.packet.id,
        name: sighted.packet.name,
        platform: sighted.packet.platform,
        trust_state: TrustState::Discovered,
        endpoint: Some(sighted.endpoint),
        public_key: Some(sighted.packet.public_key),
    }
}

proof fn orderly_opens(contents: Seq<char>)
    requires
        orderly(contents),
    ensures
        opened(contents) == (Session {
            devices: devices_in(contents),
            contents,
            saved: false,
        }),
        lasting(devices_in(contents)),
{
    compacting_changes_only_duplicates(devices_in(contents));
    file_holds_storable_devices(contents);
}

proof fn lasting_with(devices: Seq<Device>, at: int, device: Device)
    requires
        lasting(devices),
        keeps(device),
        0 <= at <= devices.len(),
    ensures
        at < devices.len() ==> lasting(devices.update(at, device)),
        lasting(devices.push(device)),
{
    let more = devices.push(device);
    assert forall|i: int| 0 <= i < more.len() implies storable(#[trigger] more[i]) && stored(
        more[i],
    ) == more[i] by {
        if i < devices.len() {
            assert(storable(devices[i]) && stored(devices[i]) == devices[i]);
        }
    }
    if at < devices.len() {
        let changed = devices.update(at, device);
        assert forall|i: int| 0 <= i < changed.len() implies storable(#[trigger] changed[i])
            && stored(changed[i]) == changed[i] by {
            assert(storable(devices[i]) && stored(devices[i]) == devices[i]);
        }
    }
}

/// An operation leaves its list in the file, where it is stored, or changed
/// nothing.
proof fn step_is_kept(session: Session, outcome: Outcome)
    requires
        lasting(outcome.devices),
        outcome.save || outcome.devices == devices_in(session.contents),
    ensures
        devices_in(after(session, outcome).contents) == outcome.devices,
        after(session, outcome).saved || after(session, outcome).contents == session.contents,
{
    lasting_reads_back(outcome.devices);
}

/// After an announcement the device counts as trusted exactly where the store
/// then has a trusted record with its identifier or its key, whether or not the
/// announcement was news.
pub proof fn trust_is_noticed(contents: Seq<char>, seen: Device)
    requires
        seen.public_key is Some,
    ensures
        ({
            let list = recording(devices_in(opened(contents).contents), seen).devices;
            noting(contents, seen).trusted_now <==> exists|i: int|
                0 <= i < list.len() && (#[trigger] list[i]).trust_state == TrustState::Trusted && (
                list[i].id == seen.id || list[i].public_key == seen.public_key)
        }),
{
    let list = recording(devices_in(opened(contents).contents), seen).devices;
    let peer = trusted_peer(seen.id, seen.public_key->0);
    first_is_first(list, peer);
    if noting(contents, seen).trusted_now {
        let i = first(list, peer)->0;
        assert(peer(list[i]));
        assert(list[i].trust_state == TrustState::Trusted);
    }
    assert forall|i: int|
        0 <= i < list.len() && (#[trigger] list[i]).trust_state == TrustState::Trusted && (
        list[i].id == seen.id || list[i].public_key == seen.public_key) implies noting(
        contents,
        seen,
    ).trusted_now by {
        assert(peer(list[i]));
    }
}

/// What the announcement of a known device does, where it belongs to one record
/// alone and shows no other key than that. Its record becomes the device as it
/// was seen, in the state that it had; but where it was merely discovered, the
/// announcement is news, and no record of its name and platform waits for an
/// answer, the user is asked about it and it waits. It counts as trusted exactly
/// where its record is trusted, also where nothing was news. No other record
/// changes.
#[verifier::rlimit(40)]
pub proof fn known_device_is_noted(contents: Seq<char>, at: int, seen: Device)
    requires
        orderly(contents),
        only_match(devices_in(contents), at, seen),
        devices_in(contents)[at].trust_state != TrustState::Blocked,
        !other_key(devices_in(contents)[at], seen),
        seen.public_key is Some,
        seen.endpoint is Some,
        keeps(seen),
    ensures
        ({
            let devices = devices_in(contents);
            let state = devices[at].trust_state;
            let made = noting(contents, seen);
            let ask = state == TrustState::Discovered && devices[at] != (Device {
                trust_state: state,
                ..seen
            }) && forall|j: int|
                0 <= j < devices.len() ==> !((#[trigger] devices[j]).trust_state
                    == TrustState::Pending && devices[j].name == seen.name && devices[j].platform
                    == seen.platform);
            let now = Device {
                trust_state: if ask {
                    TrustState::Pending
                } else {
                    state
                },
                ..seen
            };
            &&& devices_in(file_after(contents, to_write(made.session))) == devices.update(at, now)
            &&& made.trusted_now == (state == TrustState::Trusted)
            &&& made.notice == if ask {
                Notice::PairingRequest
            } else {
                Notice::Nothing
            }
        }),
{
    let devices = devices_in(contents);
    let state = devices[at].trust_state;
    let start = opened(contents);
    orderly_opens(contents);
    let kept = Device { trust_state: state, ..seen };
    let recorded = recording(devices, seen);
    seen_device_keeps_its_state(devices, at, seen);
    lasting_with(devices, at, kept);
    let list = devices.update(at, kept);
    step_is_kept(start, recorded);
    let one = after(start, recorded);
    let key = seen.public_key->0;
    let peer = trusted_peer(seen.id, key);
    assert forall|j: int| 0 <= j < list.len() && j != at implies !peer(#[trigger] list[j]) by {
        assert(!belongs(devices[j], seen));
    }
    if state == TrustState::Trusted {
        first_found(list, peer, at);
        let updated = updating(list, seen.id, seen.endpoint->0, key);
        assert(list.update(at, list[at]) =~= list);
        assert(updated.devices == list && !updated.value && !updated.save);
    } else {
        first_absent(list, peer);
    }
    assert(only_match(list, at, seen)) by {
        assert(belongs(list[at], seen));
        assert forall|j: int| 0 <= j < list.len() && j != at implies !belongs(
            #[trigger] list[j],
            seen,
        ) by {
            assert(!belongs(devices[j], seen));
        }
    }
    prompt_is_due_once(list, at, seen);
    let asked = Device { trust_state: TrustState::Pending, ..seen };
    lasting_with(list, at, asked);
    if state == TrustState::Discovered {
        let quiet = forall|j: int|
            0 <= j < devices.len() ==> !((#[trigger] devices[j]).trust_state == TrustState::Pending
                && devices[j].name == seen.name && devices[j].platform == seen.platform);
        assert(quiet == forall|j: int|
            0 <= j < list.len() ==> !((#[trigger] list[j]).trust_state == TrustState::Pending
                && list[j].name == seen.name && list[j].platform == seen.platform)) by {
            if quiet {
                assert forall|j: int| 0 <= j < list.len() implies !((
                #[trigger] list[j]).trust_state == TrustState::Pending && list[j].name == seen.name
                    && list[j].platform == seen.platform) by {
                    if j != at {
                        assert(list[j] == devices[j]);
                    }
                }
            } else {
                let j = choose|j: int|
                    0 <= j < devices.len() && (#[trigger] devices[j]).trust_state
                        == TrustState::Pending && devices[j].name == seen.name
                        && devices[j].platform == seen.platform;
                assert(list[j] == devices[j]);
            }
        }
    }
    let second = if state == TrustState::Trusted {
        after(one, updating(list, seen.id, seen.endpoint->0, key))
    } else {
        one
    };
    assert(second.contents == one.contents);
    let marked = marking(list, seen);
    assert(marked.devices == list || marked.devices == list.update(at, asked));
    step_is_kept(second, marked);
    assert(list.update(at, asked) =~= devices.update(at, asked));
}

/// What the announcement of a device does that belongs to no record: it is
/// added as it was seen, and the user is asked about it unless a record of its
/// name and platform waits for an answer already. It does not count as trusted.
#[verifier::rlimit(40)]
pub proof fn unknown_device_is_noted(contents: Seq<char>, seen: Device)
    requires
        orderly(contents),
        forall|j: int|
            0 <= j < devices_in(contents).len() ==> !belongs(
                #[trigger] devices_in(contents)[j],
                seen,
            ),
        seen.trust_state == TrustState::Discovered,
        seen.public_key is Some,
        seen.endpoint is Some,
        keeps(seen),
    ensures
        ({
            let devices = devices_in(contents);
            let made = noting(contents, seen);
            let ask = forall|j: int|
                0 <= j < devices.len() ==> !((#[trigger] devices[j]).trust_state
                    == TrustState::Pending && devices[j].name == seen.name && devices[j].platform
                    == seen.platform);
            let now = Device {
                trust_state: if ask {
                    TrustState::Pending
                } else {
                    TrustState::Discovered
                },
                ..seen
            };
            &&& devices_in(file_after(contents, to_write(made.session))) == devices.push(now)
            &&& !made.trusted_now
            &&& made.notice == if ask {
                Notice::PairingRequest
            } else {
                Notice::Nothing
            }
        }),
{
    let devices = devices_in(contents);
    let at = devices.len() as int;
    let start = opened(contents);
    orderly_opens(contents);
    unknown_device_is_added(devices, seen);
    lasting_with(devices, at, seen);
    let list = devices.push(seen);
    let recorded = recording(devices, seen);
    step_is_kept(start, recorded);
    let one = after(start, recorded);
    let peer = trusted_peer(seen.id, seen.public_key->0);
    assert forall|j: int| 0 <= j < list.len() implies !peer(#[trigger] list[j]) by {
        if j < devices.len() {
            assert(!belongs(devices[j], seen));
        }
    }
    first_absent(list, peer);
    assert(only_match(list, at, seen)) by {
        assert(belongs(list[at], seen));
        assert forall|j: int| 0 <= j < list.len() && j != at implies !belongs(
            #[trigger] list[j],
            seen,
        ) by {
            assert(!belongs(devices[j], seen));
        }
    }
    prompt_is_due_once(list, at, seen);
    let asked = Device { trust_state: TrustState::Pending, ..seen };
    lasting_with(list, at, asked);
    let quiet = forall|j: int|
        0 <= j < devices.len() ==> !((#[trigger] devices[j]).trust_state == TrustState::Pending
            && devices[j].name == seen.name && devices[j].platform == seen.platform);
    assert(quiet == forall|j: int|
        0 <= j < list.len() ==> !((#[trigger] list[j]).trust_state == TrustState::Pending
            && list[j].name == seen.name && list[j].platform == seen.platform)) by {
        if quiet {
            assert forall|j: int| 0 <= j < list.len() implies !((#[trigger] list[j]).trust_state
                == TrustState::Pending && list[j].name == seen.name && list[j].platform
                == seen.platform) by {
                if j != at {
                    assert(list[j] == devices[j]);
                }
            }
        } else {
            let j = choose|j: int|
                0 <= j < devices.len() && (#[trigger] devices[j]).trust_state == TrustState::Pending
                    && devices[j].name == seen.name && devices[j].platform == seen.platform;
            assert(list[j] == devices[j]);
        }
    }
    let marked = marking(list, seen);
    step_is_kept(one, marked);
    assert(list.update(at, asked) =~= devices.push(asked));
}

/// What the announcement of a device does whose record is blocked, or is trusted
/// and has another key, and that belongs to no other record: nothing changes and
/// nothing is asked. It counts as trusted where its record is trusted.
#[verifier::rlimit(40)]
pub proof fn refused_announcement_changes_nothing(contents: Seq<char>, at: int, seen: Device)
    requires
        orderly(contents),
        only_match(devices_in(contents), at, seen),
        devices_in(contents)[at].trust_state == TrustState::Blocked || (
        devices_in(contents)[at].trust_state == TrustState::Trusted && other_key(
            devices_in(contents)[at],
            seen,
        )),
        seen.trust_state == TrustState::Discovered,
        seen.public_key is Some,
        seen.endpoint is Some,
    ensures
        ({
            let made = noting(contents, seen);
            &&& devices_in(file_after(contents, to_write(made.session))) == devices_in(contents)
            &&& made.trusted_now == (devices_in(contents)[at].trust_state == TrustState::Trusted)
            &&& made.notice == Notice::Nothing
        }),
{
    let devices = devices_in(contents);
    let start = opened(contents);
    orderly_opens(contents);
    let recorded = recording(devices, seen);
    if devices[at].trust_state == TrustState::Blocked {
        crate::registry_laws::discovery_respects_decisions(devices, seen);
        crate::registry_laws::only_match_is_found(devices, at, seen);
    } else {
        other_key_is_no_news(devices, at, seen);
    }
    step_is_kept(start, recorded);
    let key = seen.public_key->0;
    let peer = trusted_peer(seen.id, key);
    assert forall|j: int| 0 <= j < devices.len() && j != at implies !peer(
        #[trigger] devices[j],
    ) by {
        assert(!belongs(devices[j], seen));
    }
    if devices[at].trust_state == TrustState::Trusted {
        assert(devices[at].id == seen.id);
        first_found(devices, peer, at);
        address_is_taken_by_the_first_peer(devices, at, seen.id, seen.endpoint->0, key);
    } else {
        first_absent(devices, peer);
    }
}

// A scan
/// What a filter leaves of a list is what it leaves of the one part and then of
/// the other.
pub proof fn filter_apart(left: Seq<Device>, right: Seq<Device>, pick: spec_fn(Device) -> bool)
    ensures
        (left + right).filter(pick) == left.filter(pick) + right.filter(pick),
    decreases right.len(),
{
    reveal(Seq::filter);
    if right.len() == 0 {
        assert(left + right =~= left);
        assert(left.filter(pick) + right.filter(pick) =~= left.filter(pick));
    } else {
        let less = right.drop_last();
        filter_apart(left, less, pick);
        assert((left + right).drop_last() =~= left + less);
        assert((left + right).last() == right.last());
        assert((left + right).filter(pick) =~= left.filter(pick) + right.filter(pick));
    }
}

/// A filter leaves a device exactly where the list holds it and it has the
/// property.
pub proof fn filter_contains(devices: Seq<Device>, pick: spec_fn(Device) -> bool, device: Device)
    ensures
        devices.filter(pick).contains(device) <==> devices.contains(device) && pick(device),
    decreases devices.len(),
{
    reveal(Seq::filter);
    if devices.len() > 0 {
        let less = devices.drop_last();
        let before = less.filter(pick);
        let all = devices.filter(pick);
        filter_contains(less, pick, device);
        assert(devices.contains(device) <==> (less.contains(device) || devices.last() == device))
            by {
            if devices.contains(device) {
                let i = choose|i: int| 0 <= i < devices.len() && devices[i] == device;
                if i < less.len() {
                    assert(less[i] == device);
                }
            }
            if less.contains(device) {
                let i = choose|i: int| 0 <= i < less.len() && less[i] == device;
                assert(devices[i] == device);
            }
            assert(devices[devices.len() - 1] == devices.last());
        }
        if pick(devices.last()) {
            assert(all == before.push(devices.last()));
            if before.contains(device) {
                let i = choose|i: int| 0 <= i < before.len() && before[i] == device;
                assert(all[i] == device);
            }
            assert(all[all.len() - 1] == devices.last());
            if all.contains(device) {
                let i = choose|i: int| 0 <= i < all.len() && all[i] == device;
                if i < before.len() {
                    assert(before[i] == device);
                }
            }
        }
    }
}

/// A device is in the result of a scan exactly where the store holds it after
/// the scan, it is not this device, and a sighting has its identifier. How far
/// it is trusted plays no part.
pub proof fn scan_returns_what_was_sighted(
    contents: Seq<char>,
    local: Seq<char>,
    sightings: Seq<Sighted>,
    device: Device,
)
    ensures
        ({
            let held = scanned_session(contents, local, sightings).devices;
            found(held, local, sightings).contains(device) <==> {
                &&& held.contains(device)
                &&& device.id != local
                &&& exists|i: int|
                    0 <= i < sightings.len() && (#[trigger] sightings[i]).packet.id == device.id
            }
        }),
{
    let held = scanned_session(contents, local, sightings).devices;
    filter_contains(
        held,
        |device: Device|
            device.id != local && crate::presence::sighted(sightings, device.id),
        device,
    );
}

/// The result of a scan has the devices in the order of the store, each as
/// often as the store has it: what it has of a list is what it has of the one
/// part and then of the other.
pub proof fn scan_keeps_order(
    left: Seq<Device>,
    right: Seq<Device>,
    local: Seq<char>,
    sightings: Seq<Sighted>,
)
    ensures
        found(left + right, local, sightings) == found(left, local, sightings) + found(
            right,
            local,
            sightings,
        ),
        forall|one: Device|
            found(#[trigger] seq![one], local, sightings) == if one.id != local && exists|i: int|
                0 <= i < sightings.len() && (#[trigger] sightings[i]).packet.id == one.id {
                seq![one]
            } else {
                Seq::empty()
            },
{
    let pick = |device: Device|
        device.id != local && crate::presence::sighted(sightings, device.id);
    filter_apart(left, right, pick);
    assert forall|one: Device|
        found(#[trigger] seq![one], local, sightings) == if one.id != local && exists|i: int|
            0 <= i < sightings.len() && (#[trigger] sightings[i]).packet.id == one.id {
            seq![one]
        } else {
            Seq::empty()
        } by {
        reveal(Seq::filter);
        assert(seq![one].drop_last() =~= Seq::empty());
        assert(Seq::<Device>::empty().filter(pick) =~= Seq::empty());
        assert(seq![one].filter(pick) =~= if pick(one) {
            seq![one]
        } else {
            Seq::empty()
        });
    }
}

/// The sightings of a scan are recorded one after the other: those of two lists
/// as those of the first, and then those of the second. A sighting of this
/// device is passed over.
pub proof fn sightings_are_recorded_in_turn(
    session: Session,
    local: Seq<char>,
    left: Seq<Sighted>,
    right: Seq<Sighted>,
)
    ensures
        recorded_all(session, local, left + right) == recorded_all(
            recorded_all(session, local, left),
            local,
            right,
        ),
        forall|one: Sighted|
            recorded_all(session, local, #[trigger] seq![one]) == if one.packet.id == local {
                session
            } else {
                after(session, recording(devices_in(session.contents), shown(one)))
            },
    decreases right.len(),
{
    if right.len() == 0 {
        assert(left + right =~= left);
    } else {
        sightings_are_recorded_in_turn(session, local, left, right.drop_last());
        assert((left + right).drop_last() =~= left + right.drop_last());
        assert((left + right).last() == right.last());
    }
    assert forall|one: Sighted|
        recorded_all(session, local, #[trigger] seq![one]) == if one.packet.id == local {
            session
        } else {
            after(session, recording(devices_in(session.contents), shown(one)))
        } by {
        assert(seq![one].drop_last() =~= Seq::empty());
        assert(recorded_all(session, local, Seq::empty()) == session);
        assert(recorded_all(session, local, seq![one]) == recorded_one(session, local, one));
    }
}

proof fn filter_of_one(devices: Seq<Device>, pick: spec_fn(Device) -> bool, at: int)
    requires
        0 <= at < devices.len(),
        pick(devices[at]),
        forall|j: int| 0 <= j < devices.len() && j != at ==> !pick(#[trigger] devices[j]),
    ensures
        devices.filter(pick) == seq![devices[at]],
    decreases devices.len(),
{
    reveal(Seq::filter);
    let less = devices.drop_last();
    if at == devices.len() - 1 {
        filter_of_none(less, pick);
        assert(devices.filter(pick) =~= seq![devices[at]]);
    } else {
        filter_of_one(less, pick, at);
        assert(!pick(devices[devices.len() - 1]));
    }
}

proof fn filter_of_none(devices: Seq<Device>, pick: spec_fn(Device) -> bool)
    requires
        forall|j: int| 0 <= j < devices.len() ==> !pick(#[trigger] devices[j]),
    ensures
        devices.filter(pick) == Seq::<Device>::empty(),
    decreases devices.len(),
{
    reveal(Seq::filter);
    if devices.len() > 0 {
        filter_of_none(devices.drop_last(), pick);
        assert(!pick(devices[devices.len() - 1]));
    }
}

proof fn one_sighting_is_recorded(contents: Seq<char>, local: Seq<char>, sighted: Sighted)
    requires
        orderly(contents),
        sighted.packet.id != local,
        recording(devices_in(contents), shown(sighted)).save || recording(
            devices_in(contents),
            shown(sighted),
        ).devices == devices_in(contents),
        lasting(recording(devices_in(contents), shown(sighted)).devices),
        settled(recording(devices_in(contents), shown(sighted)).devices),
    ensures
        ({
            let session = scanned_session(contents, local, seq![sighted]);
            let list = recording(devices_in(contents), shown(sighted)).devices;
            &&& session.devices == list
            &&& devices_in(file_after(contents, to_write(session))) == list
        }),
{
    let start = opened(contents);
    let list = recording(devices_in(contents), shown(sighted)).devices;
    orderly_opens(contents);
    sightings_are_recorded_in_turn(start, local, Seq::empty(), seq![sighted]);
    step_is_kept(start, recording(devices_in(contents), shown(sighted)));
    compacting_changes_only_duplicates(list);
}

/// A scan that sights one device returns that device, whatever its record says
/// of it, and records where it is. It belongs to one record alone, shows no
/// other key, and is not blocked.
pub proof fn scan_finds_known_device(
    contents: Seq<char>,
    local: Seq<char>,
    at: int,
    sighted: Sighted,
)
    requires
        orderly(contents),
        sighted.packet.id != local,
        only_match(devices_in(contents), at, shown(sighted)),
        devices_in(contents)[at].trust_state != TrustState::Blocked,
        !other_key(devices_in(contents)[at], shown(sighted)),
        keeps(shown(sighted)),
    ensures
        ({
            let devices = devices_in(contents);
            let session = scanned_session(contents, local, seq![sighted]);
            let now = Device { trust_state: devices[at].trust_state, ..shown(sighted) };
            &&& found(session.devices, local, seq![sighted]) == seq![now]
            &&& devices_in(file_after(contents, to_write(session))) == devices.update(at, now)
        }),
{
    let devices = devices_in(contents);
    let seen = shown(sighted);
    let now = Device { trust_state: devices[at].trust_state, ..seen };
    let one = seq![sighted];
    orderly_opens(contents);
    seen_device_keeps_its_state(devices, at, seen);
    lasting_with(devices, at, now);
    crate::registry_laws::replacing_keeps_settled(devices, at, now);
    one_sighting_is_recorded(contents, local, sighted);
    let list = devices.update(at, now);
    let pick = |device: Device|
        device.id != local && crate::presence::sighted(one, device.id);
    assert(one[0].packet.id == now.id);
    assert(pick(list[at]));
    assert forall|j: int| 0 <= j < list.len() && j != at implies !pick(#[trigger] list[j]) by {
        assert(!belongs(devices[j], seen));
    }
    filter_of_one(list, pick, at);
}

/// A scan that sights one device that belongs to no record returns it, as it
/// was seen, and adds it.
pub proof fn scan_finds_unknown_device(contents: Seq<char>, local: Seq<char>, sighted: Sighted)
    requires
        orderly(contents),
        sighted.packet.id != local,
        forall|j: int|
            0 <= j < devices_in(contents).len() ==> !belongs(
                #[trigger] devices_in(contents)[j],
                shown(sighted),
            ),
        keeps(shown(sighted)),
    ensures
        ({
            let devices = devices_in(contents);
            let session = scanned_session(contents, local, seq![sighted]);
            &&& found(session.devices, local, seq![sighted]) == seq![shown(sighted)]
            &&& devices_in(file_after(contents, to_write(session))) == devices.push(shown(sighted))
        }),
{
    let devices = devices_in(contents);
    let seen = shown(sighted);
    let one = seq![sighted];
    let list = devices.push(seen);
    orderly_opens(contents);
    unknown_device_is_added(devices, seen);
    lasting_with(devices, devices.len() as int, seen);
    one_sighting_is_recorded(contents, local, sighted);
    let pick = |device: Device|
        device.id != local && crate::presence::sighted(one, device.id);
    assert(one[0].packet.id == seen.id);
    assert(pick(list[devices.len() as int]));
    assert forall|j: int| 0 <= j < list.len() && j != devices.len() implies !pick(
        #[trigger] list[j],
    ) by {
        assert(!belongs(devices[j], seen));
    }
    filter_of_one(list, pick, devices.len() as int);
}

// Refreshing addresses
/// Sightings are followed one after the other: those of two lists as those of
/// the first, and then those of the second.
pub proof fn sightings_are_followed_in_turn(
    session: Session,
    left: Seq<Sighted>,
    right: Seq<Sighted>,
)
    ensures
        refreshed(session, left + right) == refreshed(refreshed(session, left), right),
    decreases right.len(),
{
    if right.len() == 0 {
        assert(left + right =~= left);
    } else {
        sightings_are_followed_in_turn(session, left, right.drop_last());
        assert((left + right).drop_last() =~= left + right.drop_last());
        assert((left + right).last() == right.last());
    }
}

/// Whether two lists have the same devices in the same places, but for
/// addresses, and for keys that the second has not.
pub open spec fn same_devices_in_place(list: Seq<Device>, devices: Seq<Device>) -> bool {
    list.len() == devices.len() && forall|p: int|
        0 <= p < list.len() ==> (#[trigger] list[p]).id == devices[p].id && list[p].name
            == devices[p].name && list[p].platform == devices[p].platform && list[p].trust_state
            == devices[p].trust_state && (devices[p].public_key is Some ==> list[p].public_key
            == devices[p].public_key)
}

/// Whether a sighting shows a device with this identifier or this key.
pub open spec fn shows(sighted: Sighted, device: Device) -> bool {
    sighted.packet.id == device.id || device.public_key == Some(sighted.packet.public_key)
}

/// What holds of a session while sightings are followed: its file has the
/// devices that there were; what the store holds differs from that in addresses
/// only; and a record that no sighting shows is as it was.
spec fn following(session: Session, devices: Seq<Device>, all: Seq<Sighted>) -> bool {
    let list = devices_in(session.contents);
    &&& lasting(list)
    &&& same_devices_in_place(list, devices)
    &&& session.devices.len() == list.len()
    &&& forall|p: int|
        0 <= p < list.len() ==> (#[trigger] session.devices[p]).id == list[p].id
            && session.devices[p].trust_state == list[p].trust_state
            && session.devices[p].public_key == list[p].public_key
    &&& forall|p: int|
        0 <= p < list.len() && (devices[p].trust_state != TrustState::Trusted || forall|n: int|
            0 <= n < all.len() ==> !shows(#[trigger] all[n], devices[p])) ==> #[trigger] list[p]
            == devices[p]
}

/// What holds moreover of the record at `at`, which has this key.
spec fn watching(list: Seq<Device>, at: int, key: Seq<char>) -> bool {
    &&& 0 <= at < list.len()
    &&& list[at].trust_state == TrustState::Trusted
    &&& list[at].public_key == Some(key)
    &&& forall|p: int|
        0 <= p < at && (#[trigger] list[p]).trust_state == TrustState::Trusted
            ==> list[p].public_key != Some(key)
}

/// Whether no earlier trusted record without a key can take a sighting with
/// this key.
pub open spec fn unrivalled(
    devices: Seq<Device>,
    at: int,
    key: Seq<char>,
    sightings: Seq<Sighted>,
) -> bool {
    forall|j: int, n: int|
        0 <= j < at && 0 <= n < sightings.len() && (#[trigger] devices[j]).trust_state
            == TrustState::Trusted && devices[j].public_key is None && (
        #[trigger] sightings[n]).packet.public_key == key ==> sightings[n].packet.id
            != devices[j].id
}

proof fn taking_keeps_lasting(list: Seq<Device>, at: int, sighted: Sighted)
    requires
        lasting(list),
        genuine(sighted),
        0 <= at < list.len(),
        list[at].public_key is None || list[at].public_key == Some(sighted.packet.public_key),
    ensures
        lasting(
            list.update(
                at,
                Device {
                    endpoint: Some(sighted.endpoint),
                    public_key: Some(sighted.packet.public_key),
                    ..list[at]
                },
            ),
        ),
{
    genuine_is_writable(sighted);
    genuine_key_is_kept(sighted);
    assert(storable(list[at]) && stored(list[at]) == list[at]);
    lasting_with(
        list,
        at,
        Device {
            endpoint: Some(sighted.endpoint),
            public_key: Some(sighted.packet.public_key),
            ..list[at]
        },
    );
}

/// One record of the store is refreshed.
#[verifier::rlimit(40)]
proof fn one_record_is_refreshed(
    session: Session,
    devices: Seq<Device>,
    all: Seq<Sighted>,
    shot: Device,
    place: int,
    sighted: Sighted,
)
    requires
        settled(devices),
        following(session, devices, all),
        all.contains(sighted),
        genuine(sighted),
        0 <= place < devices.len(),
        shot.id == devices[place].id,
        shot.trust_state == TrustState::Trusted,
        devices[place].trust_state == TrustState::Trusted,
        same_identity(shot, sighted.packet),
        shot.public_key is Some ==> devices_in(session.contents)[place].public_key
            == shot.public_key,
    ensures
        ({
            let list = devices_in(session.contents);
            let outcome = updating(list, shot.id, sighted.endpoint, sighted.packet.public_key);
            let next = after(session, outcome);
            let now = devices_in(next.contents);
            &&& following(next, devices, all)
            &&& forall|at: int, key: Seq<char>|
                #![trigger watching(list, at, key)]
                watching(list, at, key) && (sighted.packet.public_key == key && place < at
                    ==> list[place].public_key is Some || sighted.packet.id != devices[place].id)
                    ==> {
                    &&& watching(now, at, key)
                    &&& sighted.packet.public_key != key ==> now[at] == list[at]
                    &&& now[at].endpoint == list[at].endpoint || now[at].endpoint == Some(
                        sighted.endpoint,
                    )
                    &&& sighted.packet.public_key == key && place == at ==> now[at].endpoint
                        == Some(sighted.endpoint)
                }
        }),
{
    let list = devices_in(session.contents);
    let key = sighted.packet.public_key;
    let outcome = updating(list, shot.id, sighted.endpoint, key);
    let next = after(session, outcome);
    let peer = trusted_peer(shot.id, key);
    first_is_first(list, peer);
    assert(peer(list[place]));
    let q = first(list, peer)->0;
    assert(peer(list[q]));
    assert(list[q].id == devices[q].id && list[q].trust_state == devices[q].trust_state);
    let taken = Device { endpoint: Some(sighted.endpoint), public_key: Some(key), ..list[q] };
    let n = choose|n: int| 0 <= n < all.len() && all[n] == sighted;
    assert(all[n] == sighted);
    let fits = list[q].public_key is None || list[q].public_key == Some(key);
    if fits {
        taking_keeps_lasting(list, q, sighted);
        assert(outcome.devices == list.update(q, taken));
        if list[q] == taken {
            assert(list.update(q, taken) =~= list);
            assert(!outcome.save);
        } else {
            assert(outcome.save);
        }
        step_is_kept(session, outcome);
        let now = devices_in(next.contents);
        assert(now == list.update(q, taken));
        assert forall|p: int|
            0 <= p < now.len() && (devices[p].trust_state != TrustState::Trusted || forall|n: int|
                0 <= n < all.len() ==> !shows(#[trigger] all[n], devices[p])) implies #[trigger] now[p]
            == devices[p] by {
            assert(list[p] == devices[p]);
            if p == q {
                assert(devices[p].trust_state == TrustState::Trusted);
                assert(!shows(all[n], devices[p]));
                assert(list[q].public_key != Some(key));
                assert(list[q].id == shot.id);
                if q < place {
                    assert(!belongs(devices[q], devices[place]));
                } else if place < q {
                    assert(!belongs(devices[place], devices[q]));
                }
                assert(q == place);
            }
        }
    } else {
        assert(!outcome.save);
        assert(next.contents == session.contents);
    }
    let now = devices_in(next.contents);
    assert forall|at: int, watched: Seq<char>|
        #![trigger watching(list, at, watched)]
        watching(list, at, watched) && (key == watched && place < at
            ==> list[place].public_key is Some || sighted.packet.id
            != devices[place].id) implies {
        &&& watching(now, at, watched)
        &&& key != watched ==> now[at] == list[at]
        &&& now[at].endpoint == list[at].endpoint || now[at].endpoint == Some(sighted.endpoint)
        &&& key == watched && place == at ==> now[at].endpoint == Some(sighted.endpoint)
    } by {
        if key == watched {
            assert(peer(list[at]));
            assert(q <= at);
            if q < at {
                assert(list[q].public_key != Some(key));
                assert(list[q].id == shot.id);
                if q < place {
                    assert(!belongs(devices[q], devices[place]));
                } else if place < q {
                    assert(!belongs(devices[place], devices[q]));
                }
                assert(q == place);
                if list[place].public_key is None {
                    assert(shot.public_key is None);
                    assert(sighted.packet.id == shot.id);
                }
                assert(!fits);
            }
        }
    }
}

spec fn refreshed_upto(session: Session, upto: int, sighted: Sighted) -> Session {
    refreshed_each(session, trusted(session.devices.take(upto)), sighted)
}

proof fn refreshed_upto_next(session: Session, upto: int, sighted: Sighted)
    requires
        0 <= upto < session.devices.len(),
    ensures
        ({
            let before = refreshed_upto(session, upto, sighted);
            let device = session.devices[upto];
            refreshed_upto(session, upto + 1, sighted) == if device.trust_state
                == TrustState::Trusted && same_identity(device, sighted.packet) {
                after(
                    before,
                    updating(
                        devices_in(before.contents),
                        device.id,
                        sighted.endpoint,
                        sighted.packet.public_key,
                    ),
                )
            } else {
                before
            }
        }),
{
    reveal(Seq::filter);
    let devices = session.devices;
    let less = trusted(devices.take(upto));
    let some = trusted(devices.take(upto + 1));
    assert(devices.take(upto + 1).drop_last() =~= devices.take(upto));
    assert(devices.take(upto + 1).last() == devices[upto]);
    if devices[upto].trust_state == TrustState::Trusted {
        assert(some =~= less.push(devices[upto]));
        assert(some.drop_last() =~= less);
    } else {
        assert(some =~= less);
    }
}

/// One sighting is followed, as far as the first records of the store.
#[verifier::rlimit(40)]
proof fn one_sighting_is_followed(
    session: Session,
    devices: Seq<Device>,
    all: Seq<Sighted>,
    sighted: Sighted,
    upto: int,
)
    requires
        settled(devices),
        following(session, devices, all),
        all.contains(sighted),
        genuine(sighted),
        0 <= upto <= devices.len(),
    ensures
        ({
            let next = refreshed_upto(session, upto, sighted);
            let list = devices_in(session.contents);
            let now = devices_in(next.contents);
            &&& following(next, devices, all)
            &&& forall|p: int|
                0 <= p < list.len() && list[p].public_key is Some ==> (#[trigger] now[p]).public_key
                    == list[p].public_key
            &&& forall|at: int, key: Seq<char>|
                #![trigger watching(list, at, key)]
                watching(list, at, key) && unrivalled(devices, at, key, all) ==> {
                    &&& watching(now, at, key)
                    &&& sighted.packet.public_key != key ==> now[at] == list[at]
                    &&& now[at].endpoint == list[at].endpoint || now[at].endpoint == Some(
                        sighted.endpoint,
                    )
                    &&& sighted.packet.public_key == key && at < upto ==> now[at].endpoint == Some(
                        sighted.endpoint,
                    )
                }
        }),
    decreases upto,
{
    let list = devices_in(session.contents);
    if upto == 0 {
        assert(session.devices.take(0) =~= Seq::empty());
        reveal(Seq::filter);
        assert(trusted(session.devices.take(0)) =~= Seq::empty());
    } else {
        let place = upto - 1;
        one_sighting_is_followed(session, devices, all, sighted, place);
        refreshed_upto_next(session, place, sighted);
        let before = refreshed_upto(session, place, sighted);
        let middle = devices_in(before.contents);
        let shot = session.devices[place];
        assert(shot.id == list[place].id && shot.trust_state == list[place].trust_state
            && shot.public_key == list[place].public_key);
        assert(list[place].id == devices[place].id && list[place].trust_state
            == devices[place].trust_state);
        let next = refreshed_upto(session, upto, sighted);
        let now = devices_in(next.contents);
        if shot.trust_state == TrustState::Trusted && same_identity(shot, sighted.packet) {
            one_record_is_refreshed(before, devices, all, shot, place, sighted);
            crate::registry_laws::update_touches_trusted_only(
                middle,
                shot.id,
                sighted.endpoint,
                sighted.packet.public_key,
            );
            assert(same_devices_in_place(now, devices));
            assert forall|p: int| 0 <= p < list.len() && list[p].public_key is Some implies (
            #[trigger] now[p]).public_key == list[p].public_key by {
                assert(middle[p].public_key == list[p].public_key);
                later_list_keeps_keys(before, devices, shot, place, sighted);
            }
        }
        assert forall|at: int, key: Seq<char>|
            #![trigger watching(list, at, key)]
            watching(list, at, key) && unrivalled(devices, at, key, all) implies {
            &&& watching(now, at, key)
            &&& sighted.packet.public_key != key ==> now[at] == list[at]
            &&& now[at].endpoint == list[at].endpoint || now[at].endpoint == Some(sighted.endpoint)
            &&& sighted.packet.public_key == key && at < upto ==> now[at].endpoint == Some(
                sighted.endpoint,
            )
        } by {
            assert(watching(middle, at, key));
            let n = choose|n: int| 0 <= n < all.len() && all[n] == sighted;
            if sighted.packet.public_key == key && place < at && middle[place].public_key is None
                && devices[place].trust_state == TrustState::Trusted {
                assert(devices[place].public_key is None) by {
                    if devices[place].public_key is Some {
                        assert(middle[place].public_key == devices[place].public_key);
                    }
                }
                assert(all[n].packet.public_key == key);
                assert(sighted.packet.id != devices[place].id);
            }
            if sighted.packet.public_key == key && at == place {
                assert(list[at].public_key == Some(key));
                assert(same_identity(shot, sighted.packet));
            }
        }
    }
}

proof fn later_list_keeps_keys(
    session: Session,
    devices: Seq<Device>,
    shot: Device,
    place: int,
    sighted: Sighted,
)
    requires
        lasting(devices_in(session.contents)),
        genuine(sighted),
    ensures
        ({
            let list = devices_in(session.contents);
            let outcome = updating(list, shot.id, sighted.endpoint, sighted.packet.public_key);
            let now = devices_in(after(session, outcome).contents);
            forall|p: int|
                0 <= p < list.len() && list[p].public_key is Some ==> (#[trigger] now[p]).public_key
                    == list[p].public_key
        }),
{
    let list = devices_in(session.contents);
    let key = sighted.packet.public_key;
    let outcome = updating(list, shot.id, sighted.endpoint, key);
    let peer = trusted_peer(shot.id, key);
    first_is_first(list, peer);
    if outcome.save {
        let q = first(list, peer)->0;
        taking_keeps_lasting(list, q, sighted);
        let taken = Device { endpoint: Some(sighted.endpoint), public_key: Some(key), ..list[q] };
        assert(outcome.devices == list.update(q, taken));
        step_is_kept(session, outcome);
    }
}

/// Sightings are followed: every record stays in its place.
proof fn all_sightings_are_followed(
    session: Session,
    devices: Seq<Device>,
    all: Seq<Sighted>,
    sightings: Seq<Sighted>,
)
    requires
        settled(devices),
        following(session, devices, all),
        forall|n: int|
            0 <= n < sightings.len() ==> genuine(#[trigger] sightings[n]) && all.contains(
                sightings[n],
            ),
    ensures
        following(refreshed(session, sightings), devices, all),
    decreases sightings.len(),
{
    if sightings.len() > 0 {
        let less = sightings.drop_last();
        let last = sightings[sightings.len() - 1];
        assert forall|n: int| 0 <= n < less.len() implies genuine(#[trigger] less[n])
            && all.contains(less[n]) by {
            assert(less[n] == sightings[n]);
        }
        all_sightings_are_followed(session, devices, all, less);
        last_sighting_is_followed(session, devices, all, sightings);
    }
}

#[verifier::rlimit(40)]
proof fn last_sighting_is_followed(
    session: Session,
    devices: Seq<Device>,
    all: Seq<Sighted>,
    sightings: Seq<Sighted>,
)
    requires
        settled(devices),
        sightings.len() > 0,
        following(refreshed(session, sightings.drop_last()), devices, all),
        genuine(sightings[sightings.len() - 1]),
        all.contains(sightings[sightings.len() - 1]),
    ensures
        ({
            let last = sightings[sightings.len() - 1];
            let list = devices_in(refreshed(session, sightings.drop_last()).contents);
            let next = refreshed(session, sightings);
            let now = devices_in(next.contents);
            &&& following(next, devices, all)
            &&& forall|at: int, key: Seq<char>|
                #![trigger watching(list, at, key)]
                watching(list, at, key) && unrivalled(devices, at, key, all) ==> {
                    &&& watching(now, at, key)
                    &&& last.packet.public_key != key ==> now[at] == list[at]
                    &&& last.packet.public_key == key ==> now[at].endpoint == Some(last.endpoint)
                }
        }),
{
    let before = refreshed(session, sightings.drop_last());
    let last = sightings[sightings.len() - 1];
    let list = devices_in(before.contents);
    one_sighting_is_followed(before, devices, all, last, devices.len() as int);
    assert(list.len() == devices.len());
    assert(before.devices.take(devices.len() as int) =~= before.devices);
    assert(refreshed(session, sightings) == refreshed_upto(before, devices.len() as int, last));
}

/// Where a device is once sightings were followed, among which are no others
/// with its key behind the `n`th, or none at all.
#[verifier::rlimit(40)]
proof fn watched_device_is_followed(
    session: Session,
    devices: Seq<Device>,
    all: Seq<Sighted>,
    sightings: Seq<Sighted>,
    at: int,
    key: Seq<char>,
    n: int,
)
    requires
        settled(devices),
        following(session, devices, all),
        watching(devices_in(session.contents), at, key),
        unrivalled(devices, at, key, all),
        forall|m: int|
            0 <= m < sightings.len() ==> genuine(#[trigger] sightings[m]) && all.contains(
                sightings[m],
            ),
        -1 <= n < sightings.len(),
        n >= 0 ==> sightings[n].packet.public_key == key,
        forall|m: int|
            n < m < sightings.len() ==> (#[trigger] sightings[m]).packet.public_key != key,
    ensures
        ({
            let now = devices_in(refreshed(session, sightings).contents);
            &&& watching(now, at, key)
            &&& n >= 0 ==> now[at].endpoint == Some(sightings[n].endpoint)
            &&& n < 0 ==> now[at] == devices_in(session.contents)[at]
        }),
    decreases sightings.len(),
{
    if sightings.len() > 0 {
        let less = sightings.drop_last();
        let last = sightings[sightings.len() - 1];
        assert forall|m: int| 0 <= m < less.len() implies genuine(#[trigger] less[m])
            && all.contains(less[m]) by {
            assert(less[m] == sightings[m]);
        }
        all_sightings_are_followed(session, devices, all, less);
        last_sighting_is_followed(session, devices, all, sightings);
        let list = devices_in(refreshed(session, less).contents);
        if n == sightings.len() - 1 {
            watched_stays(session, devices, all, less, at, key);
        } else {
            assert forall|m: int| n < m < less.len() implies (#[trigger] less[m]).packet.public_key
                != key by {
                assert(less[m] == sightings[m]);
            }
            watched_device_is_followed(session, devices, all, less, at, key, n);
        }
        assert(watching(list, at, key));
    }
}

proof fn watched_stays(
    session: Session,
    devices: Seq<Device>,
    all: Seq<Sighted>,
    sightings: Seq<Sighted>,
    at: int,
    key: Seq<char>,
)
    requires
        settled(devices),
        following(session, devices, all),
        watching(devices_in(session.contents), at, key),
        unrivalled(devices, at, key, all),
        forall|m: int|
            0 <= m < sightings.len() ==> genuine(#[trigger] sightings[m]) && all.contains(
                sightings[m],
            ),
    ensures
        watching(devices_in(refreshed(session, sightings).contents), at, key),
    decreases sightings.len(),
{
    if sightings.len() > 0 {
        let less = sightings.drop_last();
        assert forall|m: int| 0 <= m < less.len() implies genuine(#[trigger] less[m])
            && all.contains(less[m]) by {
            assert(less[m] == sightings[m]);
        }
        let last = sightings[sightings.len() - 1];
        assert(genuine(last));
        all_sightings_are_followed(session, devices, all, less);
        watched_stays(session, devices, all, less, at, key);
        last_sighting_is_followed(session, devices, all, sightings);
    }
}

/// Every trusted device that sightings show is followed: in the file, it has the
/// address of the last sighting with its key, and where there is none, its
/// record is as it was. This holds of each device however many others are
/// sighted. No earlier trusted record without a key has the identifier of such a
/// sighting: that record would be the one that takes the key.
pub proof fn sighted_devices_are_followed(
    contents: Seq<char>,
    at: int,
    key: Seq<char>,
    sightings: Seq<Sighted>,
)
    requires
        orderly(contents),
        forall|n: int| 0 <= n < sightings.len() ==> genuine(#[trigger] sightings[n]),
        0 <= at < devices_in(contents).len(),
        devices_in(contents)[at].trust_state == TrustState::Trusted,
        devices_in(contents)[at].public_key == Some(key),
        unrivalled(devices_in(contents), at, key, sightings),
    ensures
        ({
            let devices = devices_in(contents);
            let now = devices_in(
                file_after(contents, to_write(refreshed(opened(contents), sightings))),
            );
            &&& now.len() == devices.len()
            &&& now[at] == (Device { endpoint: now[at].endpoint, ..devices[at] })
            &&& forall|n: int|
                0 <= n < sightings.len() && (#[trigger] sightings[n]).packet.public_key == key && (
                forall|m: int|
                    n < m < sightings.len() ==> (#[trigger] sightings[m]).packet.public_key != key)
                    ==> now[at].endpoint == Some(sightings[n].endpoint)
            &&& (forall|n: int|
                0 <= n < sightings.len() ==> (#[trigger] sightings[n]).packet.public_key != key)
                ==> now[at] == devices[at]
        }),
{
    let devices = devices_in(contents);
    let start = opened(contents);
    orderly_opens(contents);
    assert forall|n: int| 0 <= n < sightings.len() implies genuine(#[trigger] sightings[n])
        && sightings.contains(sightings[n]) by {}
    all_sightings_are_followed(start, devices, sightings, sightings);
    assert(watching(devices, at, key)) by {
        assert forall|p: int|
            0 <= p < at && (#[trigger] devices[p]).trust_state
                == TrustState::Trusted implies devices[p].public_key != Some(key) by {
            assert(!belongs(devices[p], devices[at]));
        }
    }
    unsaved_is_unchanged(start, sightings);
    watched_stays(start, devices, sightings, sightings, at, key);
    let now = devices_in(refreshed(start, sightings).contents);
    assert(now[at].id == devices[at].id);
    assert forall|n: int|
        0 <= n < sightings.len() && (#[trigger] sightings[n]).packet.public_key == key && (forall|
            m: int,
        |
            n < m < sightings.len() ==> (#[trigger] sightings[m]).packet.public_key
                != key) implies now[at].endpoint == Some(sightings[n].endpoint) by {
        watched_device_is_followed(start, devices, sightings, sightings, at, key, n);
    }
    if forall|n: int|
        0 <= n < sightings.len() ==> (#[trigger] sightings[n]).packet.public_key != key {
        watched_device_is_followed(start, devices, sightings, sightings, at, key, -1);
    }
}

proof fn unsaved_is_unchanged(session: Session, sightings: Seq<Sighted>)
    ensures
        refreshed(session, sightings).saved || refreshed(session, sightings).contents
            == session.contents,
        session.saved ==> refreshed(session, sightings).saved,
    decreases sightings.len(),
{
    if sightings.len() > 0 {
        let before = refreshed(session, sightings.drop_last());
        unsaved_is_unchanged(session, sightings.drop_last());
        unsaved_each(before, trusted(before.devices), sightings.last());
    }
}

proof fn unsaved_each(session: Session, devices: Seq<Device>, sighted: Sighted)
    ensures
        refreshed_each(session, devices, sighted).saved || refreshed_each(
            session,
            devices,
            sighted,
        ).contents == session.contents,
        session.saved ==> refreshed_each(session, devices, sighted).saved,
    decreases devices.len(),
{
    if devices.len() > 0 {
        unsaved_each(session, devices.drop_last(), sighted);
    }
}

/// Following sightings keeps every record in its place and changes nothing of
/// it but the address, and the key where it had none. A record that is not
/// trusted, or that no sighting shows by its identifier or its key, is as it
/// was.
pub proof fn following_touches_shown_devices_only(contents: Seq<char>, sightings: Seq<Sighted>)
    requires
        orderly(contents),
        forall|n: int| 0 <= n < sightings.len() ==> genuine(#[trigger] sightings[n]),
    ensures
        ({
            let devices = devices_in(contents);
            let now = devices_in(
                file_after(contents, to_write(refreshed(opened(contents), sightings))),
            );
            &&& same_devices_in_place(now, devices)
            &&& forall|p: int|
                0 <= p < now.len() && (devices[p].trust_state != TrustState::Trusted || forall|
                    n: int,
                |
                    0 <= n < sightings.len() ==> !shows(#[trigger] sightings[n], devices[p]))
                    ==> #[trigger] now[p] == devices[p]
        }),
{
    let devices = devices_in(contents);
    let start = opened(contents);
    orderly_opens(contents);
    assert forall|n: int| 0 <= n < sightings.len() implies genuine(#[trigger] sightings[n])
        && sightings.contains(sightings[n]) by {}
    all_sightings_are_followed(start, devices, sightings, sightings);
    unsaved_is_unchanged(start, sightings);
}

/// Text goes to the trusted devices of a list, all of them, each once, and in
/// their order.
pub proof fn trusted_devices_are_the_targets(
    left: Seq<Device>,
    right: Seq<Device>,
    device: Device,
)
    ensures
        trusted(left + right) == trusted(left) + trusted(right),
        trusted(left).contains(device) <==> left.contains(device) && device.trust_state
            == TrustState::Trusted,
        trusted(seq![device]) == if device.trust_state == TrustState::Trusted {
            seq![device]
        } else {
            Seq::<Device>::empty()
        },
{
    let pick = |device: Device| device.trust_state == TrustState::Trusted;
    filter_apart(left, right, pick);
    filter_contains(left, pick, device);
    reveal(Seq::filter);
    assert(seq![device].drop_last() =~= Seq::empty());
    assert(Seq::<Device>::empty().filter(pick) =~= Seq::empty());
    assert(seq![device].filter(pick) =~= if pick(device) {
        seq![device]
    } else {
        Seq::empty()
    });
}

/// What an announcement calls for, whatever the file holds: that an address was
/// updated, where the device counts as trusted and its record changed by the
/// update; else that the user is asked, where recording the device was news and
/// the prompt is due; else nothing. Each step starts from what the file holds
/// after the step before it.
pub proof fn announcement_calls_for(contents: Seq<char>, seen: Device)
    requires
        seen.public_key is Some,
        seen.endpoint is Some,
    ensures
        ({
            let made = noting(contents, seen);
            let start = opened(contents);
            let recorded = recording(devices_in(start.contents), seen);
            let one = after(start, recorded);
            let updated = updating(
                devices_in(one.contents),
                seen.id,
                seen.endpoint->0,
                seen.public_key->0,
            );
            let two = if made.trusted_now {
                after(one, updated)
            } else {
                one
            };
            let marked = marking(devices_in(two.contents), seen);
            let moved = made.trusted_now && updated.value;
            &&& made.notice == Notice::EndpointUpdated <==> moved
            &&& made.notice == Notice::PairingRequest <==> !moved && recorded.value && marked.value
            &&& made.session == if !moved && recorded.value {
                after(two, marked)
            } else {
                two
            }
        }),
{
}

/// A scan ends with a list of which no two records have one identifier, and
/// which is what is left of a list when the records of one device are made one.
pub proof fn scan_leaves_one_record_each(
    contents: Seq<char>,
    local: Seq<char>,
    sightings: Seq<Sighted>,
)
    ensures
        ({
            let session = scanned_session(contents, local, sightings);
            &&& distinct_identifiers(session.devices)
            &&& exists|list: Seq<Device>| session.devices == #[trigger] normalized(list)
        }),
{
    let recorded = recorded_all(opened(contents), local, sightings);
    normalizing_leaves_one_record_each(devices_in(recorded.contents));
}

} // verus!
