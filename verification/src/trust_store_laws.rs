//! What holds of the store across writing its file and loading it again.

use vstd::prelude::*;

use crate::device::{platform_name_reads_back, Device, DeviceInfo, Platform, TrustState};
use crate::presence::{opened, to_write};
use crate::registry::{
    described, first, first_absent, first_found, first_is_first, has_id, in_state, keys_conflict,
    known, marking, match_index, merged, normalized, rank, recording, revoking, trusting,
    trusting_described, Outcome,
};
use crate::registry_laws::{
    belongs, compacting_changes_only_duplicates, described_device_is_trusted,
    discovery_respects_decisions, distinct_identifiers, match_index_in_range,
    normalizing_leaves_one_record_each, place_of, prompt_only_once, settled,
    trusted_as, trusting_switches_device,
};
use crate::text::{
    blank, free_of, join, lines, lines_go_by_part, split, split_joined, strip_cr,
};
use crate::trust_store::{
    commits, device_in_line, devices_in, devices_in_lines, file_of, file_reads_back, looks_up,
    state_name_reads_back, storable, stored, trusted_with_id, Commit, TrustStore,
};

verus! {

proof fn split_pieces_are_free(text: Seq<char>, separator: char)
    ensures
        forall|i: int|
            0 <= i < split(text, separator).len() ==> free_of(
                #[trigger] split(text, separator)[i],
                separator,
            ),
    decreases text.len(),
{
    if text.len() > 0 {
        let before = split(text.drop_last(), separator);
        split_pieces_are_free(text.drop_last(), separator);
        crate::text::split_nonempty(text.drop_last(), separator);
        assert(free_of(before[before.len() - 1], separator));
    }
}

proof fn split_pieces_stay_free(text: Seq<char>, separator: char, c: char)
    requires
        free_of(text, c),
    ensures
        forall|i: int|
            0 <= i < split(text, separator).len() ==> free_of(
                #[trigger] split(text, separator)[i],
                c,
            ),
    decreases text.len(),
{
    if text.len() > 0 {
        let before = split(text.drop_last(), separator);
        assert forall|i: int| 0 <= i < text.drop_last().len() implies #[trigger] text.drop_last()[i]
            != c by {
            assert(text[i] != c);
        }
        split_pieces_stay_free(text.drop_last(), separator, c);
        crate::text::split_nonempty(text.drop_last(), separator);
        assert(free_of(before[before.len() - 1], c));
        assert(text[text.len() - 1] != c);
    }
}

proof fn lines_are_free(contents: Seq<char>)
    ensures
        forall|i: int| 0 <= i < lines(contents).len() ==> free_of(#[trigger] lines(contents)[i], '\n'),
{
    let pieces = split(contents, '\n');
    split_pieces_are_free(contents, '\n');
    crate::text::split_nonempty(contents, '\n');
    assert forall|i: int| 0 <= i < lines(contents).len() implies free_of(
        #[trigger] lines(contents)[i],
        '\n',
    ) by {
        assert(free_of(pieces[i], '\n'));
        if i < pieces.len() - 1 {
            assert(lines(contents)[i] == strip_cr(pieces[i]));
        }
    }
}

proof fn line_gives_storable(line: Seq<char>)
    requires
        free_of(line, '\n'),
    ensures
        device_in_line(line) is Some ==> storable(device_in_line(line)->0),
{
    let fields = split(line, '\t');
    split_pieces_are_free(line, '\t');
    split_pieces_stay_free(line, '\t', '\n');
    if device_in_line(line) is Some {
        assert(free_of(fields[0], '\t') && free_of(fields[0], '\n'));
        if fields.len() > 4 {
            assert(free_of(fields[4], '\t') && free_of(fields[4], '\n'));
        }
        if fields.len() > 5 {
            assert(free_of(fields[5], '\t') && free_of(fields[5], '\n'));
        }
    }
}

proof fn lines_give_storable(rows: Seq<Seq<char>>)
    requires
        forall|i: int| 0 <= i < rows.len() ==> free_of(#[trigger] rows[i], '\n'),
    ensures
        forall|i: int|
            0 <= i < devices_in_lines(rows).len() ==> storable(#[trigger] devices_in_lines(rows)[i]),
    decreases rows.len(),
{
    if rows.len() > 0 {
        let before = rows.drop_last();
        assert forall|i: int| 0 <= i < before.len() implies free_of(#[trigger] before[i], '\n') by {
            assert(before[i] == rows[i]);
        }
        lines_give_storable(before);
        assert(free_of(rows[rows.len() - 1], '\n'));
        line_gives_storable(rows.last());
        let sofar = devices_in_lines(before);
        let all = devices_in_lines(rows);
        assert forall|i: int| 0 <= i < all.len() implies storable(#[trigger] all[i]) by {
            if i < sofar.len() {
                assert(storable(sofar[i]));
            }
        }
    }
}

/// Every device that a file describes can be written to a file.
pub proof fn file_holds_storable_devices(contents: Seq<char>)
    ensures
        forall|i: int|
            0 <= i < devices_in(contents).len() ==> storable(#[trigger] devices_in(contents)[i]),
{
    lines_are_free(contents);
    lines_give_storable(lines(contents));
}

/// Whether no record with this identifier is in a state that trust could
/// still replace.
pub open spec fn refused(devices: Seq<Device>, id: Seq<char>) -> bool {
    forall|i: int|
        0 <= i < devices.len() && (#[trigger] devices[i]).id == id ==> rank(devices[i].trust_state)
            > rank(TrustState::Trusted)
}

/// Making the records of one device one never brings back a device whose every
/// record is revoked or blocked.
pub proof fn refusal_survives_normalizing(devices: Seq<Device>, id: Seq<char>)
    requires
        refused(devices, id),
    ensures
        refused(normalized(devices), id),
    decreases devices.len(),
{
    if devices.len() > 0 {
        let before = devices.drop_last();
        let last = devices.last();
        assert forall|i: int| 0 <= i < before.len() && (#[trigger] before[i]).id == id implies rank(
            before[i].trust_state,
        ) > rank(TrustState::Trusted) by {
            assert(before[i] == devices[i]);
        }
        refusal_survives_normalizing(before, id);
        let done = normalized(before);
        match_index_in_range(done, last);
        assert(last == devices[devices.len() - 1]);
        let after = normalized(devices);
        assert forall|i: int| 0 <= i < after.len() && (#[trigger] after[i]).id == id implies rank(
            after[i].trust_state,
        ) > rank(TrustState::Trusted) by {
            match match_index(done, last) {
                Some(at) => {
                    if i != at {
                        assert(after[i] == done[i]);
                    } else {
                        assert(after[i] == merged(done[i], last));
                        assert(done[i].id == id ==> rank(done[i].trust_state) > rank(
                            TrustState::Trusted,
                        ));
                    }
                },
                None => {
                    if i < done.len() {
                        assert(after[i] == done[i]);
                    }
                },
            }
        }
    }
}

/// A revocation that is written to the file holds when the file is loaded
/// again, whatever the file held before: no device with that identifier is
/// trusted.
pub proof fn revocation_survives_reload(contents: Seq<char>, id: Seq<char>)
    ensures
        first(
            normalized(devices_in(file_of(revoking(devices_in(contents), id).devices))),
            trusted_with_id(id),
        ) is None,
{
    let devices = devices_in(contents);
    let after = revoking(devices, id).devices;
    file_holds_storable_devices(contents);
    assert forall|i: int| 0 <= i < after.len() implies storable(#[trigger] after[i]) by {
        assert(storable(devices[i]));
    }
    file_reads_back(after);
    let read = devices_in(file_of(after));
    assert forall|i: int| 0 <= i < read.len() && (#[trigger] read[i]).id == id implies rank(
        read[i].trust_state,
    ) > rank(TrustState::Trusted) by {
        assert(read[i] == stored(after[i]));
        assert(after[i].id == id);
    }
    refusal_survives_normalizing(read, id);
    let loaded = normalized(read);
    assert forall|i: int| 0 <= i < loaded.len() implies !trusted_with_id(id)(
        #[trigger] loaded[i],
    ) by {}
    first_absent(loaded, trusted_with_id(id));
}

/// An announcement never lifts a refusal: where every record with an identifier
/// is revoked or blocked, and no two records of the list are of one device, no
/// record with that identifier is trusted after any device was seen.
pub proof fn refusal_survives_discovery(devices: Seq<Device>, id: Seq<char>, seen: Device)
    requires
        settled(devices),
        known(devices, id),
        refused(devices, id),
    ensures
        refused(recording(devices, seen).devices, id),
{
    match_index_in_range(devices, seen);
    first_is_first(devices, has_id(seen.id));
    let after = recording(devices, seen).devices;
    compacting_changes_only_duplicates(devices);
    let k = choose|k: int| 0 <= k < devices.len() && (#[trigger] devices[k]).id == id;
    match match_index(devices, seen) {
        None => {
            assert(has_id(seen.id)(devices[k]) == (seen.id == id));
            assert(seen.id != id);
            let more = devices.push(seen);
            assert forall|i: int| 0 <= i < more.len() && (#[trigger] more[i]).id == id implies rank(
                more[i].trust_state,
            ) > rank(TrustState::Trusted) by {
                assert(more[i] == devices[i]);
            }
            refusal_survives_normalizing(more, id);
        },
        Some(at) => {
            let existing = devices[at];
            if seen.id == id {
                assert(has_id(seen.id)(devices[k]));
                assert(existing.id == id);
            }
            if keys_conflict(existing, seen) {
                let more = devices.push(seen);
                assert(more.drop_last() =~= devices);
                let one = devices.update(at, merged(existing, seen));
                assert(normalized(more) == one);
                assert forall|i: int| 0 <= i < one.len() && (#[trigger] one[i]).id
                    == id implies rank(one[i].trust_state) > rank(TrustState::Trusted) by {
                    if i != at {
                        assert(one[i] == devices[i]);
                    }
                }
            } else {
                let changed = devices.update(at, in_state(seen, existing.trust_state));
                assert forall|i: int| 0 <= i < changed.len() && (#[trigger] changed[i]).id
                    == id implies rank(changed[i].trust_state) > rank(TrustState::Trusted) by {
                    if i != at {
                        assert(changed[i] == devices[i]);
                    }
                }
                refusal_survives_normalizing(changed, id);
            }
        },
    }
}

/// A process that has not noticed a revocation does not undo it: it starts from
/// the file, so that after it recorded a device the identifier is still not
/// trusted. The file had no two records of one device, and gives its records
/// back unchanged.
pub proof fn revocation_survives_concurrent_discovery(
    contents: Seq<char>,
    id: Seq<char>,
    seen: Device,
)
    requires
        settled(devices_in(contents)),
        known(devices_in(contents), id),
        forall|i: int|
            0 <= i < devices_in(contents).len() ==> stored(#[trigger] devices_in(contents)[i])
                == devices_in(contents)[i],
    ensures
        ({
            let revoked = file_of(revoking(devices_in(contents), id).devices);
            let after = recording(devices_in(revoked), seen).devices;
            &&& devices_in(revoked) == revoking(devices_in(contents), id).devices
            &&& first(after, trusted_with_id(id)) is None
        }),
{
    let devices = devices_in(contents);
    let revoked = revoking(devices, id).devices;
    file_holds_storable_devices(contents);
    assert forall|i: int| 0 <= i < revoked.len() implies storable(#[trigger] revoked[i]) && stored(
        revoked[i],
    ) == revoked[i] by {
        assert(storable(devices[i]));
        assert(stored(devices[i]) == devices[i]);
    }
    file_reads_back(revoked);
    assert(devices_in(file_of(revoked)) =~= revoked);
    assert forall|a: int, b: int| 0 <= a < b < revoked.len() implies !belongs(
        #[trigger] revoked[a],
        #[trigger] revoked[b],
    ) by {
        assert(!belongs(devices[a], devices[b]));
    }
    let k = choose|k: int| 0 <= k < devices.len() && (#[trigger] devices[k]).id == id;
    assert(revoked[k].id == id);
    refusal_survives_discovery(revoked, id, seen);
    let after = recording(revoked, seen).devices;
    assert forall|i: int| 0 <= i < after.len() implies !trusted_with_id(id)(#[trigger] after[i]) by {}
    first_absent(after, trusted_with_id(id));
}

/// Trust in a known device that is written to the file holds when the file is
/// loaded again, where the file had no two records of one device and gives its
/// records back unchanged.
pub proof fn trust_survives_reload(contents: Seq<char>, id: Seq<char>)
    requires
        settled(devices_in(contents)),
        forall|i: int|
            0 <= i < devices_in(contents).len() ==> stored(#[trigger] devices_in(contents)[i])
                == devices_in(contents)[i],
        first(devices_in(contents), has_id(id)) is Some,
    ensures
        normalized(devices_in(file_of(trusting(devices_in(contents), id).devices))) == trusting(
            devices_in(contents),
            id,
        ).devices,
        first(
            normalized(devices_in(file_of(trusting(devices_in(contents), id).devices))),
            trusted_with_id(id),
        ) == first(devices_in(contents), has_id(id)),
{
    let devices = devices_in(contents);
    let after = trusting(devices, id).devices;
    file_holds_storable_devices(contents);
    first_is_first(devices, has_id(id));
    trusting_switches_device(devices, id);
    let at = first(devices, has_id(id))->0;
    assert forall|i: int| 0 <= i < after.len() implies storable(#[trigger] after[i]) && stored(
        after[i],
    ) == after[i] && after[i] == in_state(devices[i], after[i].trust_state) by {
        assert(storable(devices[i]));
        assert(stored(devices[i]) == devices[i]);
        if i == at {
            assert(after[at] == in_state(devices[at], TrustState::Trusted));
        }
    }
    file_reads_back(after);
    assert(devices_in(file_of(after)) =~= after);
    assert forall|a: int, b: int| 0 <= a < b < after.len() implies !belongs(
        #[trigger] after[a],
        #[trigger] after[b],
    ) by {
        assert(!belongs(devices[a], devices[b]));
        assert(after[a] == in_state(devices[a], after[a].trust_state));
        assert(after[b] == in_state(devices[b], after[b].trust_state));
    }
    compacting_changes_only_duplicates(after);
    assert forall|k: int| 0 <= k < at implies !trusted_with_id(id)(#[trigger] after[k]) by {
        assert(!has_id(id)(devices[k]));
        assert(after[k] == in_state(devices[k], after[k].trust_state));
    }
    first_found(after, trusted_with_id(id), at);
}

/// Trust in a device that the user describes holds when the file is loaded
/// again, where no two records are of one device once it is described, and the
/// file gives its records and the described device back unchanged.
pub proof fn described_trust_survives_reload(contents: Seq<char>, given: Device)
    requires
        storable(given),
        stored(given) == given,
        settled(described(devices_in(contents), given)),
        forall|i: int|
            0 <= i < devices_in(contents).len() ==> stored(#[trigger] devices_in(contents)[i])
                == devices_in(contents)[i],
    ensures
        ({
            let after = trusting_described(devices_in(contents), given);
            let loaded = normalized(devices_in(file_of(after)));
            &&& loaded == after
            &&& first(loaded, trusted_as(given)) is Some
        }),
{
    let devices = devices_in(contents);
    let list = described(devices, given);
    let after = trusting_described(devices, given);
    file_holds_storable_devices(contents);
    first_is_first(devices, has_id(given.id));
    described_device_is_trusted(devices, given);
    assert forall|i: int| 0 <= i < after.len() implies storable(#[trigger] after[i]) && stored(
        after[i],
    ) == after[i] by {
        assert(after[i] == in_state(list[i], after[i].trust_state));
        if i < devices.len() {
            assert(storable(devices[i]));
            assert(stored(devices[i]) == devices[i]);
        }
    }
    file_reads_back(after);
    assert(devices_in(file_of(after)) =~= after);
    assert forall|a: int, b: int| 0 <= a < b < after.len() implies !belongs(
        #[trigger] after[a],
        #[trigger] after[b],
    ) by {
        assert(!belongs(list[a], list[b]));
        assert(after[a] == in_state(list[a], after[a].trust_state));
        assert(after[b] == in_state(list[b], after[b].trust_state));
    }
    compacting_changes_only_duplicates(after);
}

/// A prompt that is written to the file is not due again after the file is
/// read, where the file gives its records back unchanged.
pub proof fn prompt_survives_reload(contents: Seq<char>, seen: Device)
    requires
        forall|i: int|
            0 <= i < devices_in(contents).len() ==> stored(#[trigger] devices_in(contents)[i])
                == devices_in(contents)[i],
    ensures
        !marking(
            devices_in(file_of(marking(devices_in(contents), seen).devices)),
            seen,
        ).value,
{
    let devices = devices_in(contents);
    let after = marking(devices, seen).devices;
    file_holds_storable_devices(contents);
    match_index_in_range(devices, seen);
    assert forall|i: int| 0 <= i < after.len() implies storable(#[trigger] after[i]) && stored(
        after[i],
    ) == after[i] by {
        assert(storable(devices[i]));
        assert(stored(devices[i]) == devices[i]);
    }
    file_reads_back(after);
    assert(devices_in(file_of(after)) =~= after);
    prompt_only_once(devices, seen);
}

proof fn normalizing_keeps_storable(devices: Seq<Device>)
    requires
        forall|i: int| 0 <= i < devices.len() ==> storable(#[trigger] devices[i]),
    ensures
        forall|i: int|
            0 <= i < normalized(devices).len() ==> storable(#[trigger] normalized(devices)[i]),
    decreases devices.len(),
{
    if devices.len() > 0 {
        let less = devices.drop_last();
        let last = devices[devices.len() - 1];
        assert forall|i: int| 0 <= i < less.len() implies storable(#[trigger] less[i]) by {
            assert(storable(devices[i]));
        }
        normalizing_keeps_storable(less);
        let before = normalized(less);
        let after = normalized(devices);
        match_index_in_range(before, last);
        assert forall|i: int| 0 <= i < after.len() implies storable(#[trigger] after[i]) by {
            assert(storable(last));
            if i < before.len() {
                assert(storable(before[i]));
            }
        }
    }
}

/// What seeing a device on the network leaves in the file, whatever the file
/// held. A device that belongs to no record of the file is in the file that is
/// written, and the decision in a revoked record that it belongs to stands
/// there: in a record at least as refused. For a blocked record nothing is
/// written.
pub proof fn discovery_is_stored(contents: Seq<char>, seen: Device)
    requires
        seen.trust_state == TrustState::Discovered,
        storable(seen),
    ensures
        ({
            let devices = devices_in(contents);
            let outcome = recording(devices, seen);
            let written = devices_in(file_of(outcome.devices));
            &&& written == outcome.devices.map_values(|device: Device| stored(device))
            &&& match match_index(devices, seen) {
                None => outcome.save && known(written, seen.id),
                Some(at) => match devices[at].trust_state {
                    TrustState::Blocked => !outcome.save,
                    TrustState::Revoked => {
                        let place = if keys_conflict(devices[at], seen) {
                            place_of(devices, at)
                        } else {
                            at
                        };
                        0 <= place < written.len() && rank(written[place].trust_state) >= rank(
                            TrustState::Revoked,
                        )
                    },
                    _ => true,
                },
            }
        }),
{
    let devices = devices_in(contents);
    let after = recording(devices, seen).devices;
    let more = devices.push(seen);
    file_holds_storable_devices(contents);
    match_index_in_range(devices, seen);
    assert forall|i: int| 0 <= i < more.len() implies storable(#[trigger] more[i]) by {
        if i < devices.len() {
            assert(storable(devices[i]));
        }
    }
    normalizing_keeps_storable(more);
    if let Some(at) = match_index(devices, seen) {
        let changed = devices.update(at, in_state(seen, devices[at].trust_state));
        assert forall|i: int| 0 <= i < changed.len() implies storable(#[trigger] changed[i]) by {
            if i != at {
                assert(storable(devices[i]));
            }
        }
        normalizing_keeps_storable(changed);
    }
    assert forall|i: int| 0 <= i < after.len() implies storable(#[trigger] after[i]) by {}
    file_reads_back(after);
    discovery_respects_decisions(devices, seen);
    let written = devices_in(file_of(after));
    match match_index(devices, seen) {
        None => {
            assert(after[after.len() - 1].id == seen.id);
            assert(written[after.len() - 1].id == seen.id);
        },
        Some(at) => {},
    }
}

/// A file is read part by part: what a file holds that is put together from two,
/// the first of which is empty or ends with a line feed, is what the first holds
/// and then what the second holds. So no line changes what another gives.
pub proof fn file_is_read_by_part(left: Seq<char>, right: Seq<char>)
    requires
        left.len() == 0 || left.last() == '\n',
    ensures
        devices_in(left + right) == devices_in(left) + devices_in(right),
{
    lines_go_by_part(left, right);
    rows_go_by_part(lines(left), lines(right));
}

proof fn rows_go_by_part(left: Seq<Seq<char>>, right: Seq<Seq<char>>)
    ensures
        devices_in_lines(left + right) == devices_in_lines(left) + devices_in_lines(right),
    decreases right.len(),
{
    if right.len() == 0 {
        assert(left + right =~= left);
        assert(devices_in_lines(left) + devices_in_lines(right) =~= devices_in_lines(left));
    } else {
        rows_go_by_part(left, right.drop_last());
        assert((left + right).drop_last() =~= left + right.drop_last());
        assert((left + right).last() == right.last());
        assert(devices_in_lines(left + right) =~= devices_in_lines(left) + devices_in_lines(right));
    }
}

/// The line of a device, by its fields: an identifier that is not empty, a name,
/// a platform and a state, of which unknown words mean an unknown platform and a
/// device that is merely discovered; then the address and the key, where they
/// are there and not blank. With fewer than four fields it gives no device.
#[verifier::rlimit(40)]
pub proof fn line_gives_its_fields(fields: Seq<Seq<char>>)
    requires
        fields.len() > 0,
        forall|i: int| 0 <= i < fields.len() ==> free_of(#[trigger] fields[i], '\t'),
    ensures
        ({
            let read = device_in_line(join(fields, seq!['\t']));
            &&& fields.len() < 4 || fields[0].len() == 0 ==> read is None
            &&& fields.len() >= 4 && fields[0].len() > 0 ==> {
                &&& read is Some
                &&& read->0.id == fields[0]
                &&& read->0.name == fields[1]
                &&& fields[2] == "macos"@ ==> read->0.platform == Platform::MacOs
                &&& fields[2] == "windows"@ ==> read->0.platform == Platform::Windows
                &&& fields[2] == "linux"@ ==> read->0.platform == Platform::Linux
                &&& fields[2] == "android"@ ==> read->0.platform == Platform::Android
                &&& fields[3] == "pending"@ ==> read->0.trust_state == TrustState::Pending
                &&& fields[3] == "trusted"@ ==> read->0.trust_state == TrustState::Trusted
                &&& fields[3] == "revoked"@ ==> read->0.trust_state == TrustState::Revoked
                &&& fields[3] == "blocked"@ ==> read->0.trust_state == TrustState::Blocked
                &&& fields[3] != "pending"@ && fields[3] != "trusted"@ && fields[3] != "revoked"@
                    && fields[3] != "blocked"@ ==> read->0.trust_state == TrustState::Discovered
                &&& fields.len() == 4 || blank(fields[4]) ==> read->0.endpoint is None
                &&& fields.len() > 4 && !blank(fields[4]) ==> read->0.endpoint == Some(fields[4])
                &&& fields.len() <= 5 || blank(fields[5]) ==> read->0.public_key is None
                &&& fields.len() > 5 && !blank(fields[5]) ==> read->0.public_key == Some(fields[5])
            }
        }),
{
    split_joined(fields, '\t');
    state_name_reads_back(TrustState::Pending);
    state_name_reads_back(TrustState::Trusted);
    state_name_reads_back(TrustState::Revoked);
    state_name_reads_back(TrustState::Blocked);
    platform_name_reads_back(Platform::MacOs);
    platform_name_reads_back(Platform::Windows);
    platform_name_reads_back(Platform::Linux);
    platform_name_reads_back(Platform::Android);
}

/// An operation that has to be stored hands back a file that gives the devices
/// back which the store then holds; one that need not be hands back nothing.
pub proof fn committed_devices_are_read_back(store: TrustStore, commit: Commit, outcome: Outcome)
    requires
        commits(store, commit, outcome),
        forall|i: int| 0 <= i < outcome.devices.len() ==> storable(#[trigger] outcome.devices[i]),
    ensures
        store@ == outcome.devices,
        commit.value == outcome.value,
        outcome.save <==> commit.contents is Some,
        outcome.save ==> devices_in(commit.contents->0@) == outcome.devices.map_values(
            |device: Device| stored(device),
        ),
{
    file_reads_back(outcome.devices);
}

/// Loading writes the file anew exactly where it holds two records of one
/// device, and then with one record for each identifier.
pub proof fn loading_rewrites_duplicates_only(contents: Seq<char>)
    ensures
        to_write(opened(contents)) is None <==> settled(devices_in(contents)),
        to_write(opened(contents)) is None ==> opened(contents).devices == devices_in(contents),
        distinct_identifiers(opened(contents).devices),
        to_write(opened(contents)) matches Some(text) ==> devices_in(text) == opened(
            contents,
        ).devices.map_values(|device: Device| stored(device)),
{
    let devices = devices_in(contents);
    compacting_changes_only_duplicates(devices);
    normalizing_leaves_one_record_each(devices);
    file_holds_storable_devices(contents);
    normalizing_keeps_storable(devices);
    file_reads_back(normalized(devices));
}

/// A lookup gives the first device that has the property, and none where no
/// device has it.
pub proof fn lookup_gives_the_first(
    res: Option<&DeviceInfo>,
    devices: Seq<Device>,
    property: spec_fn(Device) -> bool,
)
    requires
        looks_up(res, devices, property),
    ensures
        match res {
            Some(device) => property(device@) && exists|i: int|
                0 <= i < devices.len() && #[trigger] devices[i] == device@ && forall|j: int|
                    0 <= j < i ==> !property(#[trigger] devices[j]),
            None => forall|j: int| 0 <= j < devices.len() ==> !property(#[trigger] devices[j]),
        },
{
    first_is_first(devices, property);
    if let Some(i) = first(devices, property) {
        assert(devices[i] == res->0@);
    }
}

} // verus!
