//! What the store makes of devices that are seen on the network.
//!
//! Each function starts from what the file of the store holds at that moment,
//! which its caller reads under a lock, and hands back what the caller has to
//! write before it lets the lock go.

use vstd::prelude::*;

use crate::device::{
    borrowed_list, device_list, optional_text, trusted, Device, DeviceId, DeviceInfo,
    TrustState,
};
use crate::discovery::{sighted_device, sighting_list, Announced, Sighted, Sighting};
use crate::registry::{
    compacting, first, first_absent, first_found, marking, normalized, recording, trusted_peer,
    updating, Outcome,
};
use crate::text::same;
use crate::trust_store::{devices_in, file_of, Commit, TrustStore};

verus! {

/// What a file holds after an operation on its devices.
pub open spec fn contents_after(contents: Seq<char>, outcome: Outcome) -> Seq<char> {
    if outcome.save {
        file_of(outcome.devices)
    } else {
        contents
    }
}

/// A store at work: the devices that it holds, what its file holds, and
/// whether that differs from what the file held at first.
pub struct Session {
    pub devices: Seq<Device>,
    pub contents: Seq<char>,
    pub saved: bool,
}

/// A session after one more operation.
pub open spec fn after(session: Session, outcome: Outcome) -> Session {
    Session {
        devices: outcome.devices,
        contents: contents_after(session.contents, outcome),
        saved: session.saved || outcome.save,
    }
}

/// A session at its start: the store is loaded.
pub open spec fn opened(contents: Seq<char>) -> Session {
    let devices = normalized(devices_in(contents));
    let changed = devices != devices_in(contents);
    Session {
        devices,
        contents: if changed {
            file_of(devices)
        } else {
            contents
        },
        saved: changed,
    }
}

/// What a session leaves to write.
pub open spec fn to_write(session: Session) -> Option<Seq<char>> {
    if session.saved {
        Some(session.contents)
    } else {
        None
    }
}

/// A store, what its file holds, and whether that has to be written.
struct Work {
    store: TrustStore,
    contents: String,
    saved: bool,
}

impl Work {
    spec fn is(self, session: Session) -> bool {
        self.store@ == session.devices && self.contents@ == session.contents && self.saved
            == session.saved
    }

    fn open(contents: &str) -> (res: Work)
        ensures
            res.is(opened(contents@)),
    {
        let (store, rewrite) = TrustStore::load(contents);
        match rewrite {
            Some(text) => Work { store, contents: text, saved: true },
            None => Work { store, contents: contents.to_owned(), saved: false },
        }
    }

    /// Takes up what an operation hands back.
    fn keep(&mut self, commit: Commit)
        ensures
            final(self).store == old(self).store,
            match commit.contents {
                Some(text) => final(self).contents@ == text@ && final(self).saved,
                None => final(self).contents@ == old(self).contents@ && final(self).saved == old(
                    self,
                ).saved,
            },
    {
        match commit.contents {
            Some(text) => {
                self.contents = text;
                self.saved = true;
            },
            None => {},
        }
    }

    fn finish(self) -> (res: Option<String>)
        ensures
            optional_text(res) == if self.saved {
                Some(self.contents@)
            } else {
                None
            },
    {
        if self.saved {
            Some(self.contents)
        } else {
            None
        }
    }
}

/// What an announcement calls for.
#[derive(Clone, Copy, Debug, PartialEq, Eq, Structural)]
pub enum Notice {
    /// A trusted device has a new address.
    EndpointUpdated,
    /// The user is to be asked about a new device.
    PairingRequest,
    Nothing,
}

/// What an announcement leads to: the store, what its file holds, whether the
/// device is trusted, and what is called for.
pub struct Noting {
    pub session: Session,
    pub trusted_now: bool,
    pub notice: Notice,
}

/// What the announcement of a device, seen at an address with a key, leads to.
/// The store is loaded; the device is recorded; where it is trusted its address
/// is brought up to date; else, where it is new, the user is asked about it,
/// once.
pub open spec fn noting(contents: Seq<char>, seen: Device) -> Noting {
    let start = opened(contents);
    let recorded = recording(devices_in(start.contents), seen);
    let first_step = after(start, recorded);
    let trusted_now = first(
        recorded.devices,
        trusted_peer(seen.id, seen.public_key->0),
    ) is Some;
    let updated = updating(
        devices_in(first_step.contents),
        seen.id,
        seen.endpoint->0,
        seen.public_key->0,
    );
    let second_step = if trusted_now {
        after(first_step, updated)
    } else {
        first_step
    };
    let marked = marking(devices_in(second_step.contents), seen);
    if trusted_now && updated.value {
        Noting { session: second_step, trusted_now, notice: Notice::EndpointUpdated }
    } else if recorded.value {
        Noting {
            session: after(second_step, marked),
            trusted_now,
            notice: if marked.value {
                Notice::PairingRequest
            } else {
                Notice::Nothing
            },
        }
    } else {
        Noting { session: second_step, trusted_now, notice: Notice::Nothing }
    }
}

/// What an announcement led to.
#[derive(Debug)]
pub struct Noted {
    /// The device as it announced itself.
    pub info: DeviceInfo,
    /// What has to be written to the file, if anything.
    pub contents: Option<String>,
    /// Whether the device is trusted: it then gets the acknowledgement of the
    /// pairing again, and text that could not be delivered before.
    pub trusted_now: bool,
    pub notice: Notice,
}

/// Whether a list holds a trusted device with this identifier or key.
fn has_trusted_peer(devices: &[DeviceInfo], id: &DeviceId, key: &str) -> (res: bool)
    ensures
        res == first(device_list(devices@), trusted_peer(id@, key@)) is Some,
{
    let ghost list = device_list(devices@);
    let ghost property = trusted_peer(id@, key@);
    let mut i: usize = 0;
    while i < devices.len()
        invariant
            i <= devices.len(),
            list == device_list(devices@),
            property == trusted_peer(id@, key@),
            forall|k: int| 0 <= k < i ==> !property(#[trigger] list[k]),
        decreases devices.len() - i,
    {
        let device = &devices[i];
        assert(list[i as int] == device@);
        if device.trust_state == TrustState::Trusted && (device.id.same(id)
            || crate::device::holds_text(&device.public_key, key)) {
            proof {
                first_found(list, property, i as int);
            }
            return true;
        }
        i += 1;
    }
    proof {
        first_absent(list, property);
    }
    false
}

/// Takes up the announcement of a device, unless it is this device's own.
pub fn note_announcement(contents: &str, local: &DeviceId, sighting: Sighting) -> (res: Option<
    Noted,
>)
    ensures
        match res {
            Some(noted) => {
                let seen = sighted_device(sighting@);
                let made = noting(contents@, seen);
                &&& sighting@.packet.id != local@
                &&& noted.info@ == seen
                &&& optional_text(noted.contents) == to_write(made.session)
                &&& noted.trusted_now == made.trusted_now
                &&& noted.notice == made.notice
            },
            None => sighting@.packet.id == local@,
        },
{
    if sighting.packet.id.same(local) {
        return None;
    }
    let endpoint = sighting.endpoint.clone();
    let key = sighting.packet.public_key.clone();
    let info = sighting.into_device_info();
    let mut work = Work::open(contents);
    let current = work.contents.clone();
    let recorded = work.store.record_discovered(current.as_str(), info.clone());
    let changed = recorded.value;
    work.keep(recorded);
    let trusted_now = has_trusted_peer(work.store.devices(), &info.id, key.as_str());
    if trusted_now {
        let current = work.contents.clone();
        let updated = work.store.update_endpoint_and_key(current.as_str(), &info.id, endpoint, key);
        let moved = updated.value;
        work.keep(updated);
        if moved {
            return Some(
                Noted {
                    info,
                    contents: work.finish(),
                    trusted_now,
                    notice: Notice::EndpointUpdated,
                },
            );
        }
    }
    let mut notice = Notice::Nothing;
    if changed {
        let current = work.contents.clone();
        let marked = work.store.mark_pairing_prompted(current.as_str(), &info);
        if marked.value {
            notice = Notice::PairingRequest;
        }
        work.keep(marked);
    }
    Some(Noted { info, contents: work.finish(), trusted_now, notice })
}

/// Whether a known device is the one that an announcement is of: the same
/// identifier or the same key.
pub open spec fn same_identity(device: Device, packet: Announced) -> bool {
    device.id == packet.id || device.public_key == Some(packet.public_key)
}

/// A session after the addresses of these devices were brought up to date,
/// each where the sighting is of it.
pub open spec fn refreshed_each(session: Session, devices: Seq<Device>, sighted: Sighted) -> Session
    decreases devices.len(),
{
    if devices.len() == 0 {
        session
    } else {
        let before = refreshed_each(session, devices.drop_last(), sighted);
        if same_identity(devices.last(), sighted.packet) {
            after(
                before,
                updating(
                    devices_in(before.contents),
                    devices.last().id,
                    sighted.endpoint,
                    sighted.packet.public_key,
                ),
            )
        } else {
            before
        }
    }
}

/// A session after the addresses of the trusted devices were brought up to
/// date, sighting by sighting.
pub open spec fn refreshed(session: Session, sightings: Seq<Sighted>) -> Session
    decreases sightings.len(),
{
    if sightings.len() == 0 {
        session
    } else {
        let before = refreshed(session, sightings.drop_last());
        refreshed_each(before, trusted(before.devices), sightings.last())
    }
}

fn refresh_each(work: &mut Work, devices: &[DeviceInfo], sighting: &Sighting)
    ensures
        forall|session: Session|
            old(work).is(session) ==> final(work).is(
                #[trigger] refreshed_each(session, device_list(devices@), sighting@),
            ),
{
    let ghost list = device_list(devices@);
    let ghost start = Session {
        devices: work.store@,
        contents: work.contents@,
        saved: work.saved,
    };
    let mut i: usize = 0;
    while i < devices.len()
        invariant
            i <= devices.len(),
            list == device_list(devices@),
            work.is(refreshed_each(start, list.take(i as int), sighting@)),
        decreases devices.len() - i,
    {
        let device = &devices[i];
        assert(list[i as int] == device@);
        assert(list.take(i + 1).drop_last() =~= list.take(i as int));
        assert(list.take(i + 1).last() == device@);
        if device.id.same(&sighting.packet.id) || crate::device::holds_text(
            &device.public_key,
            sighting.packet.public_key.as_str(),
        ) {
            let current = work.contents.clone();
            let commit = work.store.update_endpoint_and_key(
                current.as_str(),
                &device.id,
                sighting.endpoint.clone(),
                sighting.packet.public_key.clone(),
            );
            work.keep(commit);
        }
        i += 1;
    }
    assert(list.take(i as int) =~= list);
    assert forall|session: Session| old(work).is(session) implies work.is(
        #[trigger] refreshed_each(session, list, sighting@),
    ) by {
        assert(session == start);
    }
}

fn copied(devices: Vec<&DeviceInfo>) -> (res: Vec<DeviceInfo>)
    ensures
        device_list(res@) == borrowed_list(devices@),
{
    let mut res: Vec<DeviceInfo> = Vec::new();
    let mut i: usize = 0;
    while i < devices.len()
        invariant
            i <= devices.len(),
            device_list(res@) == borrowed_list(devices@).take(i as int),
        decreases devices.len() - i,
    {
        let ghost before = device_list(res@);
        let device = devices[i].clone();
        res.push(device);
        assert(device_list(res@) =~= before.push(device@));
        assert(borrowed_list(devices@).take(i + 1) =~= borrowed_list(devices@).take(
            i as int,
        ).push(borrowed_list(devices@)[i as int]));
        i += 1;
    }
    assert(borrowed_list(devices@).take(i as int) =~= borrowed_list(devices@));
    res
}

/// Brings the addresses of the trusted devices up to date with sightings.
/// Hands back what has to be written to the file, if anything.
pub fn refresh_trusted_endpoints(contents: &str, sightings: &[Sighting]) -> (res: Option<String>)
    ensures
        optional_text(res) == if sightings@.len() == 0 {
            None
        } else {
            to_write(refreshed(opened(contents@), sighting_list(sightings@)))
        },
{
    if sightings.len() == 0 {
        return None;
    }
    let ghost list = sighting_list(sightings@);
    let ghost start = opened(contents@);
    let mut work = Work::open(contents);
    let mut i: usize = 0;
    while i < sightings.len()
        invariant
            i <= sightings.len(),
            list == sighting_list(sightings@),
            work.is(refreshed(start, list.take(i as int))),
        decreases sightings.len() - i,
    {
        let ghost before = refreshed(start, list.take(i as int));
        assert(list.take(i + 1).drop_last() =~= list.take(i as int));
        assert(list.take(i + 1).last() == sightings@[i as int]@);
        let targets = copied(work.store.trusted_devices());
        refresh_each(&mut work, targets.as_slice(), &sightings[i]);
        assert(work.is(refreshed_each(before, trusted(before.devices), sightings@[i as int]@)));
        i += 1;
    }
    assert(list.take(i as int) =~= list);
    work.finish()
}

/// A session after a sighted device was recorded, unless it is this device.
pub open spec fn recorded_one(session: Session, local: Seq<char>, sighted: Sighted) -> Session {
    if sighted.packet.id == local {
        session
    } else {
        after(session, recording(devices_in(session.contents), sighted_device(sighted)))
    }
}

/// A session after the sighted devices were recorded, without this device.
pub open spec fn recorded_all(
    session: Session,
    local: Seq<char>,
    sightings: Seq<Sighted>,
) -> Session
    decreases sightings.len(),
{
    if sightings.len() == 0 {
        session
    } else {
        recorded_one(
            recorded_all(session, local, sightings.drop_last()),
            local,
            sightings.last(),
        )
    }
}

/// A session after a scan: the sighted devices are recorded, and the records
/// of one device made one.
pub open spec fn scanned_session(
    contents: Seq<char>,
    local: Seq<char>,
    sightings: Seq<Sighted>,
) -> Session {
    let recorded = recorded_all(opened(contents), local, sightings);
    after(recorded, compacting(devices_in(recorded.contents)))
}

/// Whether some sighting is of the device with this identifier.
pub open spec fn sighted(sightings: Seq<Sighted>, id: Seq<char>) -> bool {
    exists|i: int| 0 <= i < sightings.len() && (#[trigger] sightings[i]).packet.id == id
}

/// The devices of a list that a scan found: the sighted ones, without this
/// device, in their order.
pub open spec fn found(devices: Seq<Device>, local: Seq<char>, sightings: Seq<Sighted>) -> Seq<
    Device,
> {
    devices.filter(|device: Device| device.id != local && sighted(sightings, device.id))
}

fn was_sighted(sightings: &[Sighting], id: &DeviceId) -> (res: bool)
    ensures
        res == sighted(sighting_list(sightings@), id@),
{
    let ghost list = sighting_list(sightings@);
    let mut i: usize = 0;
    while i < sightings.len()
        invariant
            i <= sightings.len(),
            list == sighting_list(sightings@),
            forall|k: int| 0 <= k < i ==> (#[trigger] list[k]).packet.id != id@,
        decreases sightings.len() - i,
    {
        assert(list[i as int] == sightings@[i as int]@);
        if sightings[i].packet.id.same(id) {
            return true;
        }
        i += 1;
    }
    false
}

fn record_sighting(work: &mut Work, local: &DeviceId, sighting: &Sighting)
    ensures
        forall|session: Session|
            old(work).is(session) ==> final(work).is(
                #[trigger] recorded_one(session, local@, sighting@),
            ),
{
    if sighting.packet.id.same(local) {
        return ;
    }
    let copy = Sighting {
        packet: sighting.packet.clone(),
        endpoint: sighting.endpoint.clone(),
    };
    let current = work.contents.clone();
    let commit = work.store.record_discovered(current.as_str(), copy.into_device_info());
    work.keep(commit);
}

/// Records the devices that a scan sighted. Returns those of them that the
/// store then holds, and what has to be written to the file, if anything.
pub fn scan_devices(contents: &str, local: &DeviceId, sightings: &[Sighting]) -> (res: (
    Vec<DeviceInfo>,
    Option<String>,
))
    ensures
        ({
            let list = sighting_list(sightings@);
            let session = scanned_session(contents@, local@, list);
            &&& device_list(res.0@) == found(session.devices, local@, list)
            &&& optional_text(res.1) == to_write(session)
        }),
{
    let ghost list = sighting_list(sightings@);
    let ghost start = opened(contents@);
    let mut work = Work::open(contents);
    let mut i: usize = 0;
    while i < sightings.len()
        invariant
            i <= sightings.len(),
            list == sighting_list(sightings@),
            work.is(recorded_all(start, local@, list.take(i as int))),
        decreases sightings.len() - i,
    {
        assert(list.take(i + 1).drop_last() =~= list.take(i as int));
        assert(list.take(i + 1).last() == sightings@[i as int]@);
        record_sighting(&mut work, local, &sightings[i]);
        i += 1;
    }
    assert(list.take(i as int) =~= list);
    let current = work.contents.clone();
    let commit = work.store.compact(current.as_str());
    work.keep(commit);
    let res = found_devices(work.store.devices(), local, sightings);
    (res, work.finish())
}

fn found_devices(devices: &[DeviceInfo], local: &DeviceId, sightings: &[Sighting]) -> (res: Vec<
    DeviceInfo,
>)
    ensures
        device_list(res@) == found(device_list(devices@), local@, sighting_list(sightings@)),
{
    let ghost all = device_list(devices@);
    let ghost list = sighting_list(sightings@);
    let ghost pick = |device: Device| device.id != local@ && sighted(list, device.id);
    let mut res: Vec<DeviceInfo> = Vec::new();
    let mut i: usize = 0;
    assert(device_list(res@) =~= all.take(0).filter(pick)) by {
        reveal(Seq::filter);
    }
    while i < devices.len()
        invariant
            i <= devices.len(),
            all == device_list(devices@),
            list == sighting_list(sightings@),
            pick == (|device: Device| device.id != local@ && sighted(list, device.id)),
            device_list(res@) == all.take(i as int).filter(pick),
        decreases devices.len() - i,
    {
        let ghost before = device_list(res@);
        assert(all.take(i + 1).drop_last() =~= all.take(i as int));
        reveal(Seq::filter);
        let device = &devices[i];
        assert(all[i as int] == device@);
        if !device.id.same(local) && was_sighted(sightings, &device.id) {
            let copy = device.clone();
            res.push(copy);
            assert(device_list(res@) =~= before.push(all[i as int]));
        }
        i += 1;
    }
    assert(all.take(i as int) =~= all);
    res
}

} // verus!
