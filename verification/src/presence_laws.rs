//! What holds of the store whatever is seen on the network.

use vstd::prelude::*;

use crate::crypto::key_bytes;
use crate::delivery::{only_trusted_devices_are_sent_text, target, targets, Target};
use crate::device::{
    platform_name_reads_back, sanitized, sanitized_char, trusted, Device, TrustState,
};
use crate::discovery::{message_of, sighted_device, Message, Sighted};
use crate::hex::{hex_bytes, hex_is_plain, is_hex};
use crate::presence::{
    after, noting, opened, recorded_all, refreshed, refreshed_each, same_identity,
    scanned_session, Session,
};
use crate::registry::{
    compacting, first, first_found, first_is_first, in_state, marking, match_index, merged,
    normalized, recording, trusted_peer, updating, Outcome,
};
use crate::registry_laws::{
    belongs, compacting_changes_only_duplicates, discovery_creates_no_trust, match_index_in_range,
    normalizing_creates_no_trust, settled, trusted_count, update_touches_trusted_only,
};
use crate::text::{
    blank, free_of, join, lines, lines_append, split, split_joined, split_single, strip_cr, trim,
    white_space,
};
use crate::trust_store::{
    device_in_line, devices_in, devices_in_lines, fields_of, file_of, file_reads_back, line_of,
    name_of_state, state_name_reads_back, storable, storable_field, stored,
};
use crate::trust_store_laws::file_holds_storable_devices;

verus! {

/// Whether the file can hold a device but for line feeds in its identifier.
pub open spec fn writable(device: Device) -> bool {
    free_of(device.id, '\t') && storable_field(device.endpoint) && storable_field(
        device.public_key,
    )
}

spec fn all_writable(devices: Seq<Device>) -> bool {
    forall|i: int| 0 <= i < devices.len() ==> writable(#[trigger] devices[i])
}

proof fn writable_update(devices: Seq<Device>, at: int, device: Device)
    requires
        all_writable(devices),
        writable(device),
        0 <= at < devices.len(),
    ensures
        all_writable(devices.update(at, device)),
{
    assert forall|i: int| 0 <= i < devices.update(at, device).len() implies writable(
        #[trigger] devices.update(at, device)[i],
    ) by {
        assert(writable(devices[i]));
    }
}

proof fn writable_push(devices: Seq<Device>, device: Device)
    requires
        all_writable(devices),
        writable(device),
    ensures
        all_writable(devices.push(device)),
{
    assert forall|i: int| 0 <= i < devices.push(device).len() implies writable(
        #[trigger] devices.push(device)[i],
    ) by {
        if i < devices.len() {
            assert(writable(devices[i]));
        }
    }
}

proof fn writable_normalized(devices: Seq<Device>)
    requires
        all_writable(devices),
    ensures
        all_writable(normalized(devices)),
    decreases devices.len(),
{
    if devices.len() > 0 {
        let before = devices.drop_last();
        assert forall|i: int| 0 <= i < before.len() implies writable(#[trigger] before[i]) by {
            assert(writable(devices[i]));
        }
        writable_normalized(before);
        let done = normalized(before);
        let last = devices.last();
        assert(writable(devices[devices.len() - 1]));
        match_index_in_range(done, last);
        match match_index(done, last) {
            Some(i) => {
                assert(writable(done[i]));
                assert(writable(merged(done[i], last)));
                writable_update(done, i, merged(done[i], last));
            },
            None => writable_push(done, last),
        }
    }
}

proof fn file_is_writable(contents: Seq<char>)
    ensures
        all_writable(devices_in(contents)),
{
    file_holds_storable_devices(contents);
    assert forall|i: int| 0 <= i < devices_in(contents).len() implies writable(
        #[trigger] devices_in(contents)[i],
    ) by {
        assert(storable(devices_in(contents)[i]));
    }
}

proof fn writable_recording(devices: Seq<Device>, seen: Device)
    requires
        all_writable(devices),
        writable(seen),
    ensures
        all_writable(recording(devices, seen).devices),
{
    match_index_in_range(devices, seen);
    writable_push(devices, seen);
    writable_normalized(devices.push(seen));
    if let Some(i) = match_index(devices, seen) {
        let updated = in_state(seen, devices[i].trust_state);
        writable_update(devices, i, updated);
        writable_normalized(devices.update(i, updated));
    }
}

proof fn writable_updating(
    devices: Seq<Device>,
    id: Seq<char>,
    endpoint: Seq<char>,
    key: Seq<char>,
)
    requires
        all_writable(devices),
        storable_field(Some(endpoint)),
        storable_field(Some(key)),
    ensures
        all_writable(updating(devices, id, endpoint, key).devices),
{
    first_is_first(devices, trusted_peer(id, key));
    if let Some(i) = first(devices, trusted_peer(id, key)) {
        assert(writable(devices[i]));
        let device = devices[i];
        let changed = Device {
            endpoint: Some(endpoint),
            public_key: if device.public_key is None {
                Some(key)
            } else {
                device.public_key
            },
            ..device
        };
        writable_update(devices, i, changed);
    }
}

proof fn writable_marking(devices: Seq<Device>, seen: Device)
    requires
        all_writable(devices),
    ensures
        all_writable(marking(devices, seen).devices),
{
    match_index_in_range(devices, seen);
    if let Some(i) = match_index(devices, seen) {
        assert(writable(devices[i]));
        writable_update(devices, i, in_state(devices[i], TrustState::Pending));
    }
}

proof fn first_line_feed(text: Seq<char>) -> (at: int)
    requires
        !free_of(text, '\n'),
    ensures
        0 <= at < text.len(),
        text[at] == '\n',
        free_of(text.take(at), '\n'),
    decreases text.len(),
{
    if free_of(text.drop_last(), '\n') {
        let at = choose|i: int| 0 <= i < text.len() && #[trigger] text[i] == '\n';
        assert(at == text.len() - 1) by {
            if at < text.len() - 1 {
                assert(text.drop_last()[at] == '\n');
            }
        }
        assert(text.take(at) =~= text.drop_last());
        at
    } else {
        let at = first_line_feed(text.drop_last());
        assert(text.drop_last().take(at) =~= text.take(at));
        at
    }
}

/// The fields of a line but for the first hold no line feed, and no field
/// holds a tab.
proof fn plain_fields(device: Device)
    requires
        writable(device),
    ensures
        forall|i: int| 0 <= i < 6 ==> free_of(#[trigger] fields_of(device)[i], '\t'),
        forall|i: int| 1 <= i < 6 ==> free_of(#[trigger] fields_of(device)[i], '\n'),
{
    let fields = fields_of(device);
    platform_name_reads_back(device.platform);
    state_name_reads_back(device.trust_state);
    let name = sanitized(device.name);
    assert forall|i: int| 0 <= i < name.len() implies #[trigger] name[i] != '\t' && name[i]
        != '\n' by {
        assert(name[i] == sanitized_char(device.name[i]));
    }
    assert(fields.len() == 6);
    assert forall|i: int| 0 <= i < 6 implies free_of(#[trigger] fields[i], '\t') by {}
    assert forall|i: int| 1 <= i < 6 implies free_of(#[trigger] fields[i], '\n') by {}
}

/// A line behind its first field.
spec fn rest_of(device: Device) -> Seq<char> {
    seq!['\t'] + fields_of(device)[1] + seq!['\t'] + fields_of(device)[2] + seq!['\t'] + fields_of(
        device,
    )[3] + seq!['\t'] + fields_of(device)[4] + seq!['\t'] + fields_of(device)[5]
}

proof fn line_is_first_and_rest(device: Device)
    ensures
        line_of(device) == device.id + rest_of(device),
{
    reveal_strlit("\t");
    let tab = seq!['\t'];
    assert("\t"@ =~= tab);
    let fields = fields_of(device);
    let f5 = fields.drop_last();
    let f4 = f5.drop_last();
    let f3 = f4.drop_last();
    let f2 = f3.drop_last();
    let f1 = f2.drop_last();
    assert(fields.len() == 6 && f5.len() == 5 && f4.len() == 4 && f3.len() == 3 && f2.len() == 2);
    assert(f1.len() == 1 && f1[0] == device.id);
    assert(join(f1, tab) == device.id);
    assert(f2.last() == fields[1] && f3.last() == fields[2] && f4.last() == fields[3]);
    assert(f5.last() == fields[4]);
    assert(join(f2, tab) == device.id + tab + fields[1]);
    assert(join(f3, tab) == join(f2, tab) + tab + fields[2]);
    assert(join(f4, tab) == join(f3, tab) + tab + fields[3]);
    assert(join(f5, tab) == join(f4, tab) + tab + fields[4]);
    assert(line_of(device) == join(f5, tab) + tab + fields[5]);
    let r1 = tab + fields[1];
    let r2 = r1 + tab + fields[2];
    let r3 = r2 + tab + fields[3];
    let r4 = r3 + tab + fields[4];
    regrouped(device.id, Seq::empty(), tab, fields[1]);
    assert(Seq::empty() + tab =~= tab);
    assert(device.id + Seq::<char>::empty() =~= device.id);
    regrouped(device.id, r1, tab, fields[2]);
    regrouped(device.id, r2, tab, fields[3]);
    regrouped(device.id, r3, tab, fields[4]);
    regrouped(device.id, r4, tab, fields[5]);
    assert(rest_of(device) == r4 + tab + fields[5]);
}

proof fn regrouped(head: Seq<char>, rest: Seq<char>, tab: Seq<char>, field: Seq<char>)
    ensures
        head + rest + tab + field == head + (rest + tab + field),
{
    assert(head + rest + tab + field =~= head + (rest + tab + field));
}

proof fn line_names_state(device: Device)
    requires
        writable(device),
    ensures
        device_in_line(strip_cr(line_of(device))) matches Some(read) ==> read.trust_state
            == device.trust_state,
        free_of(device.id, '\n') ==> free_of(line_of(device), '\n'),
{
    plain_fields(device);
    let fields = fields_of(device);
    reveal_strlit("\t");
    let tab = seq!['\t'];
    assert("\t"@ =~= tab);
    let line = line_of(device);
    let head = join(fields.drop_last(), tab) + tab;
    assert(line == head + fields.last());
    let key = strip_cr(fields.last());
    let kept = fields.drop_last().push(key);
    assert(strip_cr(line) =~= head + key) by {
        if fields.last().len() > 0 {
            assert(line.last() == fields.last().last());
        } else {
            assert(line.last() == '\t');
        }
    }
    assert(kept.drop_last() =~= fields.drop_last());
    assert forall|i: int| 0 <= i < kept.len() implies free_of(#[trigger] kept[i], '\t') by {
        if i < 5 {
            assert(kept[i] == fields[i]);
        } else {
            assert(free_of(fields[5], '\t'));
        }
    }
    split_joined(kept, '\t');
    assert(kept[3] == name_of_state(device.trust_state));
    state_name_reads_back(device.trust_state);
    if free_of(device.id, '\n') {
        assert forall|i: int| 0 <= i < fields.len() implies free_of(#[trigger] fields[i], '\n') by {
            if i == 0 {
                assert(fields[0] == device.id);
            }
        }
        crate::text::join_free_of(fields, tab, '\n');
    }
}

/// Whether the lines of a file describe the devices of another, and at most
/// one more behind them, in that state.
spec fn one_more(before: Seq<Device>, more: Seq<Device>, state: TrustState) -> bool {
    more == before || (more.len() == before.len() + 1 && more.drop_last() == before
        && more.last().trust_state == state)
}

proof fn plain_line_is_added(text: Seq<char>, device: Device)
    requires
        text.len() == 0 || text.last() == '\n',
        writable(device),
        free_of(device.id, '\n'),
    ensures
        one_more(
            devices_in(text),
            devices_in(text + line_of(device).push('\n')),
            device.trust_state,
        ),
{
    let line = line_of(device);
    line_names_state(device);
    lines_append(text, line);
    let rows = lines(text).push(strip_cr(line));
    assert(rows.drop_last() =~= lines(text));
    if device_in_line(strip_cr(line)) is Some {
        let more = devices_in_lines(rows);
        assert(more.drop_last() =~= devices_in(text));
    }
}

/// A line without a tab describes no device.
proof fn bare_line_is_ignored(text: Seq<char>, head: Seq<char>)
    requires
        text.len() == 0 || text.last() == '\n',
        free_of(head, '\n'),
        free_of(head, '\t'),
    ensures
        devices_in(text + head.push('\n')) == devices_in(text),
{
    lines_append(text, head);
    let rows = lines(text).push(strip_cr(head));
    assert(rows.drop_last() =~= lines(text));
    assert(free_of(strip_cr(head), '\t')) by {
        assert forall|i: int| 0 <= i < strip_cr(head).len() implies #[trigger] strip_cr(head)[i]
            != '\t' by {
            assert(head[i] != '\t');
        }
    }
    split_single(strip_cr(head), '\t');
    assert(device_in_line(strip_cr(head)) is None);
}

/// A line feed in an identifier splits its line; what is before it describes
/// no device.
proof fn line_feed_splits(text: Seq<char>, device: Device, at: int)
    requires
        0 <= at < device.id.len(),
        device.id[at] == '\n',
    ensures
        text + line_of(device).push('\n') == (text + device.id.take(at).push('\n')) + line_of(
            Device { id: device.id.skip(at + 1), ..device },
        ).push('\n'),
{
    let head = device.id.take(at);
    let rest = Device { id: device.id.skip(at + 1), ..device };
    line_is_first_and_rest(device);
    line_is_first_and_rest(rest);
    assert(rest_of(rest) == rest_of(device));
    assert(device.id =~= head.push('\n') + rest.id);
    assert(line_of(device) =~= head.push('\n') + line_of(rest));
    assert(text + line_of(device).push('\n') =~= (text + head.push('\n')) + line_of(rest).push(
        '\n',
    ));
}

/// The lines of a file with one more device describe the devices of the file,
/// and one more at most, in the state of the device.
proof fn one_more_line(text: Seq<char>, device: Device)
    requires
        text.len() == 0 || text.last() == '\n',
        writable(device),
    ensures
        one_more(
            devices_in(text),
            devices_in(text + line_of(device).push('\n')),
            device.trust_state,
        ),
    decreases device.id.len(),
{
    if free_of(device.id, '\n') {
        plain_line_is_added(text, device);
    } else {
        let at = first_line_feed(device.id);
        let head = device.id.take(at);
        let rest = Device { id: device.id.skip(at + 1), ..device };
        let longer = text + head.push('\n');
        line_feed_splits(text, device, at);
        assert forall|i: int| 0 <= i < rest.id.len() implies #[trigger] rest.id[i] != '\t' by {
            assert(device.id[i + at + 1] != '\t');
        }
        assert forall|i: int| 0 <= i < head.len() implies #[trigger] head[i] != '\t' by {
            assert(device.id[i] != '\t');
        }
        bare_line_is_ignored(text, head);
        one_more_line(longer, rest);
    }
}

/// A file never holds more trusted devices than it was written for.
proof fn file_creates_no_trust(devices: Seq<Device>)
    requires
        all_writable(devices),
    ensures
        trusted_count(devices_in(file_of(devices))) <= trusted_count(devices),
    decreases devices.len(),
{
    if devices.len() == 0 {
        assert(split(file_of(devices), '\n') =~= seq![Seq::<char>::empty()]);
        assert(lines(file_of(devices)) =~= Seq::empty());
    } else {
        let before = devices.drop_last();
        assert forall|i: int| 0 <= i < before.len() implies writable(#[trigger] before[i]) by {
            assert(writable(devices[i]));
        }
        file_creates_no_trust(before);
        assert(writable(devices[devices.len() - 1]));
        let text = file_of(before);
        assert(text.len() == 0 || text.last() == '\n') by {
            if before.len() > 0 {
                assert(text.last() == '\n');
            }
        }
        one_more_line(text, devices.last());
    }
}

/// Whether a sighting is one that a datagram can give: of an announcement, at
/// an address.
pub open spec fn genuine(sighted: Sighted) -> bool {
    &&& exists|datagram: Seq<u8>| #[trigger]
        message_of(datagram) == Some(Message::Announcement(sighted.packet))
    &&& !blank(sighted.endpoint)
    &&& free_of(sighted.endpoint, '\t')
    &&& free_of(sighted.endpoint, '\n')
}

proof fn split_free(text: Seq<char>, separator: char)
    ensures
        forall|i: int|
            0 <= i < split(text, separator).len() ==> free_of(
                #[trigger] split(text, separator)[i],
                separator,
            ),
    decreases text.len(),
{
    if text.len() > 0 {
        let before = split(text.drop_last(), separator);
        split_free(text.drop_last(), separator);
        crate::text::split_nonempty(text.drop_last(), separator);
        assert(free_of(before[before.len() - 1], separator));
    }
}

proof fn key_is_storable(key: Seq<char>)
    requires
        key_bytes(key) is Some,
    ensures
        storable_field(Some(key)),
{
    assert(is_hex(key));
    hex_is_plain(key);
    if key.len() == 0 {
        assert(hex_bytes(key).len() == 0);
    }
    assert(!white_space(key[0]));
    assert forall|k: int| 0 <= k < key.len() implies #[trigger] key[k] != '\t' && key[k]
        != '\n' by {
        assert(!white_space(key[k]));
    }
}

/// The file can hold a device that a datagram announced, but for line feeds in
/// its identifier.
pub proof fn genuine_is_writable(sighted: Sighted)
    requires
        genuine(sighted),
    ensures
        writable(sighted_device(sighted)),
        storable_field(Some(sighted.endpoint)),
        storable_field(Some(sighted.packet.public_key)),
{
    let datagram = choose|datagram: Seq<u8>| #[trigger]
        message_of(datagram) == Some(Message::Announcement(sighted.packet));
    let text = trim(vstd::utf8::decode_utf8(datagram));
    let fields = split(text, '\t');
    split_free(text, '\t');
    assert(fields[1] == sighted.packet.id);
    assert(free_of(fields[1], '\t'));
    key_is_storable(sighted.packet.public_key);
}

proof fn states_count(left: Seq<Device>, right: Seq<Device>)
    requires
        left.len() == right.len(),
        forall|i: int|
            0 <= i < left.len() ==> (#[trigger] left[i]).trust_state == right[i].trust_state,
    ensures
        trusted_count(left) == trusted_count(right),
    decreases left.len(),
{
    if left.len() > 0 {
        assert forall|i: int| 0 <= i < left.drop_last().len() implies (
        #[trigger] left.drop_last()[i]).trust_state == right.drop_last()[i].trust_state by {
            assert(left[i].trust_state == right[i].trust_state);
        }
        states_count(left.drop_last(), right.drop_last());
        assert(left[left.len() - 1].trust_state == right[right.len() - 1].trust_state);
    }
}

proof fn marking_creates_no_trust(devices: Seq<Device>, seen: Device)
    ensures
        trusted_count(marking(devices, seen).devices) <= trusted_count(devices),
{
    match_index_in_range(devices, seen);
    if marking(devices, seen).value {
        let i = match_index(devices, seen)->0;
        let marked = devices.update(i, in_state(devices[i], TrustState::Pending));
        states_below(devices, marked);
    }
}

proof fn states_below(devices: Seq<Device>, changed: Seq<Device>)
    requires
        devices.len() == changed.len(),
        forall|i: int|
            0 <= i < changed.len() && (#[trigger] changed[i]).trust_state == TrustState::Trusted
                ==> devices[i].trust_state == TrustState::Trusted,
    ensures
        trusted_count(changed) <= trusted_count(devices),
    decreases devices.len(),
{
    if devices.len() > 0 {
        assert forall|i: int|
            0 <= i < changed.drop_last().len() && (#[trigger] changed.drop_last()[i]).trust_state
                == TrustState::Trusted implies devices.drop_last()[i].trust_state
            == TrustState::Trusted by {
            assert(changed[i].trust_state == TrustState::Trusted);
        }
        states_below(devices.drop_last(), changed.drop_last());
        assert(changed[changed.len() - 1].trust_state == TrustState::Trusted
            ==> devices[devices.len() - 1].trust_state == TrustState::Trusted);
    }
}

/// How many devices a file makes trusted.
pub open spec fn trust_in(contents: Seq<char>) -> nat {
    trusted_count(devices_in(contents))
}

proof fn opening_creates_no_trust(contents: Seq<char>)
    ensures
        trust_in(opened(contents).contents) <= trust_in(contents),
{
    let devices = devices_in(contents);
    file_is_writable(contents);
    writable_normalized(devices);
    normalizing_creates_no_trust(devices);
    file_creates_no_trust(normalized(devices));
}

proof fn saving_creates_no_trust(session: Session, outcome: Outcome)
    requires
        all_writable(outcome.devices),
        trusted_count(outcome.devices) <= trust_in(session.contents),
    ensures
        trust_in(after(session, outcome).contents) <= trust_in(session.contents),
{
    file_creates_no_trust(outcome.devices);
}

proof fn recording_step(session: Session, sighted: Sighted)
    requires
        genuine(sighted),
    ensures
        trust_in(
            after(
                session,
                recording(devices_in(session.contents), sighted_device(sighted)),
            ).contents,
        ) <= trust_in(session.contents),
{
    let devices = devices_in(session.contents);
    let seen = sighted_device(sighted);
    genuine_is_writable(sighted);
    file_is_writable(session.contents);
    writable_recording(devices, seen);
    discovery_creates_no_trust(devices, seen);
    saving_creates_no_trust(session, recording(devices, seen));
}

proof fn updating_step(session: Session, id: Seq<char>, sighted: Sighted)
    requires
        genuine(sighted),
    ensures
        trust_in(
            after(
                session,
                updating(
                    devices_in(session.contents),
                    id,
                    sighted.endpoint,
                    sighted.packet.public_key,
                ),
            ).contents,
        ) <= trust_in(session.contents),
{
    let devices = devices_in(session.contents);
    let key = sighted.packet.public_key;
    genuine_is_writable(sighted);
    file_is_writable(session.contents);
    writable_updating(devices, id, sighted.endpoint, key);
    update_touches_trusted_only(devices, id, sighted.endpoint, key);
    let outcome = updating(devices, id, sighted.endpoint, key);
    assert forall|i: int| 0 <= i < devices.len() implies (#[trigger] devices[i]).trust_state
        == outcome.devices[i].trust_state by {
        assert(outcome.devices[i].trust_state == devices[i].trust_state);
    }
    states_count(devices, outcome.devices);
    saving_creates_no_trust(session, outcome);
}

/// An announcement never makes the file trust more devices: trust comes from
/// the user alone.
pub proof fn announcement_creates_no_trust(contents: Seq<char>, sighted: Sighted)
    requires
        genuine(sighted),
    ensures
        trust_in(noting(contents, sighted_device(sighted)).session.contents) <= trust_in(contents),
{
    let seen = sighted_device(sighted);
    let start = opened(contents);
    opening_creates_no_trust(contents);
    recording_step(start, sighted);
    let recorded = recording(devices_in(start.contents), seen);
    let first_step = after(start, recorded);
    updating_step(first_step, seen.id, sighted);
    let updated = updating(
        devices_in(first_step.contents),
        seen.id,
        seen.endpoint->0,
        seen.public_key->0,
    );
    let trusted_now = first(
        recorded.devices,
        trusted_peer(seen.id, seen.public_key->0),
    ) is Some;
    let second_step = if trusted_now {
        after(first_step, updated)
    } else {
        first_step
    };
    let devices = devices_in(second_step.contents);
    file_is_writable(second_step.contents);
    writable_marking(devices, seen);
    marking_creates_no_trust(devices, seen);
    saving_creates_no_trust(second_step, marking(devices, seen));
}

proof fn refreshing_each_creates_no_trust(
    session: Session,
    devices: Seq<Device>,
    sighted: Sighted,
)
    requires
        genuine(sighted),
    ensures
        trust_in(refreshed_each(session, devices, sighted).contents) <= trust_in(session.contents),
    decreases devices.len(),
{
    if devices.len() > 0 {
        refreshing_each_creates_no_trust(session, devices.drop_last(), sighted);
        let before = refreshed_each(session, devices.drop_last(), sighted);
        updating_step(before, devices.last().id, sighted);
    }
}

/// Bringing addresses up to date never makes the file trust more devices.
pub proof fn refreshing_creates_no_trust(contents: Seq<char>, sightings: Seq<Sighted>)
    requires
        forall|i: int| 0 <= i < sightings.len() ==> genuine(#[trigger] sightings[i]),
    ensures
        trust_in(refreshed(opened(contents), sightings).contents) <= trust_in(contents),
    decreases sightings.len(),
{
    opening_creates_no_trust(contents);
    if sightings.len() > 0 {
        let less = sightings.drop_last();
        assert forall|i: int| 0 <= i < less.len() implies genuine(#[trigger] less[i]) by {
            assert(genuine(sightings[i]));
        }
        refreshing_creates_no_trust(contents, less);
        let before = refreshed(opened(contents), less);
        assert(genuine(sightings[sightings.len() - 1]));
        refreshing_each_creates_no_trust(before, trusted(before.devices), sightings.last());
    }
}

proof fn recording_all_creates_no_trust(
    session: Session,
    local: Seq<char>,
    sightings: Seq<Sighted>,
)
    requires
        forall|i: int| 0 <= i < sightings.len() ==> genuine(#[trigger] sightings[i]),
    ensures
        trust_in(recorded_all(session, local, sightings).contents) <= trust_in(session.contents),
    decreases sightings.len(),
{
    if sightings.len() > 0 {
        let less = sightings.drop_last();
        assert forall|i: int| 0 <= i < less.len() implies genuine(#[trigger] less[i]) by {
            assert(genuine(sightings[i]));
        }
        recording_all_creates_no_trust(session, local, less);
        assert(genuine(sightings[sightings.len() - 1]));
        recording_step(recorded_all(session, local, less), sightings.last());
    }
}

/// A scan never makes the file trust more devices.
pub proof fn scanning_creates_no_trust(
    contents: Seq<char>,
    local: Seq<char>,
    sightings: Seq<Sighted>,
)
    requires
        forall|i: int| 0 <= i < sightings.len() ==> genuine(#[trigger] sightings[i]),
    ensures
        trust_in(scanned_session(contents, local, sightings).contents) <= trust_in(contents),
{
    opening_creates_no_trust(contents);
    recording_all_creates_no_trust(opened(contents), local, sightings);
    let recorded = recorded_all(opened(contents), local, sightings);
    let devices = devices_in(recorded.contents);
    file_is_writable(recorded.contents);
    writable_normalized(devices);
    normalizing_creates_no_trust(devices);
    saving_creates_no_trust(recorded, compacting(devices));
}

/// A list in which a trusted device has moved, and has its key.
pub open spec fn moved(devices: Seq<Device>, at: int, sighted: Sighted) -> Seq<Device> {
    devices.update(
        at,
        Device {
            endpoint: Some(sighted.endpoint),
            public_key: Some(sighted.packet.public_key),
            ..devices[at]
        },
    )
}

/// A property of devices: it is trusted, the sighting is of it by its
/// identifier or by its key, and it has no other key.
pub open spec fn followed_by(sighted: Sighted) -> spec_fn(Device) -> bool {
    |device: Device|
        device.trust_state == TrustState::Trusted && (device.id == sighted.packet.id
            || device.public_key == Some(sighted.packet.public_key)) && (device.public_key is None
            || device.public_key == Some(sighted.packet.public_key))
}

/// Whether a list comes back from its file as it is.
pub open spec fn lasting(devices: Seq<Device>) -> bool {
    forall|i: int|
        0 <= i < devices.len() ==> storable(#[trigger] devices[i]) && stored(devices[i])
            == devices[i]
}

/// Such a list comes back from its file.
pub proof fn lasting_reads_back(devices: Seq<Device>)
    requires
        lasting(devices),
    ensures
        devices_in(file_of(devices)) == devices,
{
    file_reads_back(devices);
    assert(devices_in(file_of(devices)) =~= devices);
}

proof fn moving_keeps_lasting(devices: Seq<Device>, at: int, sighted: Sighted)
    requires
        lasting(devices),
        0 <= at < devices.len(),
        genuine(sighted),
    ensures
        lasting(moved(devices, at, sighted)),
{
    let after = moved(devices, at, sighted);
    let key = sighted.packet.public_key;
    genuine_is_writable(sighted);
    genuine_key_is_kept(sighted);
    assert(storable(devices[at]) && stored(devices[at]) == devices[at]);
    assert forall|i: int| 0 <= i < after.len() implies storable(#[trigger] after[i]) && stored(
        after[i],
    ) == after[i] by {
        assert(storable(devices[i]) && stored(devices[i]) == devices[i]);
    }
}

/// The file keeps the key of a device that a datagram announced.
pub proof fn genuine_key_is_kept(sighted: Sighted)
    requires
        genuine(sighted),
    ensures
        strip_cr(sighted.packet.public_key) == sighted.packet.public_key,
{
    let key = sighted.packet.public_key;
    let datagram = choose|datagram: Seq<u8>| #[trigger]
        message_of(datagram) == Some(Message::Announcement(sighted.packet));
    assert(key_bytes(key) is Some);
    assert(is_hex(key));
    hex_is_plain(key);
    if key.len() > 0 {
        assert(!white_space(key[key.len() - 1]));
    }
}

/// A session after the first `upto` records were refreshed: the file still has
/// the list as it was, until the sighted device was refreshed; then it has
/// moved.
#[verifier::rlimit(40)]
proof fn refreshing_moves(
    session: Session,
    devices: Seq<Device>,
    at: int,
    sighted: Sighted,
    upto: int,
)
    requires
        settled(devices),
        lasting(devices),
        genuine(sighted),
        session.devices == devices,
        devices_in(session.contents) == devices,
        first(devices, followed_by(sighted)) == Some(at),
        0 <= upto <= devices.len(),
    ensures
        ({
            let after = refreshed_each(session, trusted(devices.take(upto)), sighted);
            let there = moved(devices, at, sighted);
            if upto > at {
                after.devices == there && devices_in(after.contents) == there
            } else {
                devices_in(after.contents) == devices
            }
        }),
    decreases upto,
{
    let property = followed_by(sighted);
    let there = moved(devices, at, sighted);
    let key = sighted.packet.public_key;
    first_is_first(devices, property);
    moving_keeps_lasting(devices, at, sighted);
    lasting_reads_back(there);
    let some = trusted(devices.take(upto));
    reveal(Seq::filter);
    if upto == 0 {
        assert(devices.take(upto) =~= Seq::empty());
        assert(some =~= Seq::empty());
    } else {
        let n = upto - 1;
        let device = devices[n];
        refreshing_moves(session, devices, at, sighted, n);
        assert(devices.take(upto).drop_last() =~= devices.take(n));
        assert(devices.take(upto).last() == device);
        let less = trusted(devices.take(n));
        let before = refreshed_each(session, less, sighted);
        if device.trust_state == TrustState::Trusted {
            assert(some.drop_last() =~= less);
            assert(some.last() == device);
            if same_identity(device, sighted.packet) {
                let list = devices_in(before.contents);
                let peer = trusted_peer(device.id, key);
                first_is_first(list, peer);
                if n < at {
                    assert(!property(devices[n]));
                    assert(peer(list[n]));
                    let i = first(list, peer)->0;
                    assert(i <= n);
                    assert(!property(devices[i]));
                    assert(device.id == sighted.packet.id);
                } else if n == at {
                    assert forall|k: int| 0 <= k < at implies !peer(#[trigger] list[k]) by {
                        assert(!property(devices[k]));
                        assert(!belongs(devices[k], devices[at]));
                    }
                    first_found(list, peer, at);
                    if device.endpoint == Some(sighted.endpoint) && device.public_key == Some(key) {
                        assert(there =~= devices);
                    }
                } else {
                    assert forall|k: int| 0 <= k < at implies !peer(#[trigger] list[k]) by {
                        assert(list[k] == devices[k]);
                        assert(!property(devices[k]));
                        assert(!belongs(devices[k], devices[n]));
                    }
                    assert(peer(list[at]));
                    first_found(list, peer, at);
                    assert(there.update(at, there[at]) =~= there);
                }
            } else {
                assert(n != at);
            }
        } else {
            assert(n != at);
            assert(some =~= less);
        }
    }
}

/// A trusted device that is sighted, by its identifier or by its key, and has no
/// other key, is followed: the file has its new address, and its key where it
/// had none, and keeps everything else. From then on it is sent text there; so
/// it is after the file was loaded again, unless the key makes its record one
/// of the same device as another. The file had no two records of one device,
/// and gives its records back unchanged. Where the sighting is of more than one
/// such device, the first is followed.
#[verifier::rlimit(40)]
pub proof fn sighted_device_is_followed(contents: Seq<char>, at: int, sighted: Sighted)
    requires
        genuine(sighted),
        settled(devices_in(contents)),
        forall|i: int|
            0 <= i < devices_in(contents).len() ==> stored(#[trigger] devices_in(contents)[i])
                == devices_in(contents)[i],
        first(devices_in(contents), followed_by(sighted)) == Some(at),
    ensures
        ({
            let devices = devices_in(contents);
            let session = refreshed(opened(contents), seq![sighted]);
            let there = moved(devices, at, sighted);
            &&& session.devices == there
            &&& devices_in(session.contents) == there
            &&& targets(there).contains(
                Target {
                    id: devices[at].id,
                    name: devices[at].name,
                    endpoint: sighted.endpoint,
                    public_key: sighted.packet.public_key,
                },
            )
            &&& settled(there) ==> opened(session.contents).devices == there
        }),
{
    let devices = devices_in(contents);
    let start = opened(contents);
    let one = seq![sighted];
    let there = moved(devices, at, sighted);
    file_holds_storable_devices(contents);
    compacting_changes_only_duplicates(devices);
    compacting_changes_only_duplicates(there);
    first_is_first(devices, followed_by(sighted));
    refreshing_moves(start, devices, at, sighted, devices.len() as int);
    assert(devices.take(devices.len() as int) =~= devices);
    assert(one.drop_last() =~= Seq::empty());
    assert(refreshed(start, one.drop_last()) == start);
    assert(target(there[at]) is Some);
    only_trusted_devices_are_sent_text(there);
}

/// A device that is sighted with the key that it has leaves the list free of
/// second records, so that it is found at its new address when
/// the file is loaded again.
pub proof fn moving_keeps_settled(devices: Seq<Device>, at: int, sighted: Sighted)
    requires
        settled(devices),
        0 <= at < devices.len(),
        devices[at].public_key == Some(sighted.packet.public_key),
    ensures
        settled(moved(devices, at, sighted)),
{
    let after = moved(devices, at, sighted);
    assert forall|a: int, b: int| 0 <= a < b < after.len() implies !belongs(
        #[trigger] after[a],
        #[trigger] after[b],
    ) by {
        assert(!belongs(devices[a], devices[b]));
    }
}

} // verus!
