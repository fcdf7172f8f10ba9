//! To whom clipboard text is sent, and what is kept until it has arrived.

use vstd::prelude::*;

use crate::device::{
    holds_text, optional_text, Device, DeviceId, DeviceInfo, LocalDevice, TrustState,
};
use crate::discovery::{sighting_list, Sighted, Sighting};
use crate::error::{Error, ErrorKind};
use crate::reception::PAIRING_ACCEPT_TEXT;
use crate::registry::first;
use crate::text::{same, texts};
use crate::transport::{
    encrypt_pairing_accept, encrypt_text, reaches_receiver, seals, EncryptedPacketKind,
    EncryptedTextPacket,
};
use crate::crypto::NONCE_BYTES;
use crate::trust_store::{trusted_with_id, TrustStore};

verus! {

/// A device to which text is sent.
#[derive(Debug, PartialEq, Eq)]
pub struct Delivery {
    pub id: DeviceId,
    pub name: String,
    pub endpoint: String,
    pub public_key: String,
}

/// What a delivery says, as mathematical values.
#[verifier::ext_equal]
pub struct Target {
    pub id: Seq<char>,
    pub name: Seq<char>,
    pub endpoint: Seq<char>,
    pub public_key: Seq<char>,
}

impl View for Delivery {
    type V = Target;

    open spec fn view(&self) -> Target {
        Target {
            id: self.id@,
            name: self.name@,
            endpoint: self.endpoint@,
            public_key: self.public_key@,
        }
    }
}

/// What a list of deliveries says.
pub open spec fn delivery_list(deliveries: Seq<Delivery>) -> Seq<Target> {
    Seq::new(deliveries.len(), |i: int| deliveries[i]@)
}

/// Text is sent to a device where it is trusted and its address and key are
/// known.
pub open spec fn target(device: Device) -> Option<Target> {
    if device.trust_state == TrustState::Trusted && device.endpoint is Some && device.public_key
        is Some {
        Some(
            Target {
                id: device.id,
                name: device.name,
                endpoint: device.endpoint->0,
                public_key: device.public_key->0,
            },
        )
    } else {
        None
    }
}

/// The devices of a list to which text is sent, in their order.
pub open spec fn targets(devices: Seq<Device>) -> Seq<Target>
    decreases devices.len(),
{
    if devices.len() == 0 {
        Seq::empty()
    } else {
        let before = targets(devices.drop_last());
        match target(devices.last()) {
            Some(one) => before.push(one),
            None => before,
        }
    }
}

fn delivery_to(device: &DeviceInfo) -> (res: Option<Delivery>)
    ensures
        match res {
            Some(delivery) => target(device@) == Some(delivery@),
            None => target(device@) is None,
        },
{
    if device.trust_state != TrustState::Trusted {
        return None;
    }
    match (&device.endpoint, &device.public_key) {
        (Some(endpoint), Some(public_key)) => Some(
            Delivery {
                id: device.id.clone(),
                name: device.name.clone(),
                endpoint: endpoint.clone(),
                public_key: public_key.clone(),
            },
        ),
        _ => None,
    }
}

/// The devices to which text is sent.
pub fn deliveries(store: &TrustStore) -> (res: Vec<Delivery>)
    ensures
        delivery_list(res@) == targets(store@),
{
    let devices = store.devices();
    let ghost list = store@;
    let mut res: Vec<Delivery> = Vec::new();
    let mut i: usize = 0;
    assert(delivery_list(res@) =~= targets(list.take(0)));
    while i < devices.len()
        invariant
            i <= devices.len(),
            list == crate::device::device_list(devices@),
            delivery_list(res@) == targets(list.take(i as int)),
        decreases devices.len() - i,
    {
        let ghost before = delivery_list(res@);
        assert(list[i as int] == devices@[i as int]@);
        assert(list.take(i + 1).drop_last() =~= list.take(i as int));
        assert(list.take(i + 1).last() == devices@[i as int]@);
        match delivery_to(&devices[i]) {
            Some(delivery) => {
                res.push(delivery);
                assert(delivery_list(res@) =~= before.push(delivery@));
            },
            None => {},
        }
        i += 1;
    }
    assert(list.take(i as int) =~= list);
    res
}

/// Whether a target is one of the trusted devices.
pub open spec fn is_trusted_device(devices: Seq<Device>, one: Target) -> bool {
    exists|i: int|
        0 <= i < devices.len() && #[trigger] target(devices[i]) == Some(one)
            && devices[i].trust_state == TrustState::Trusted
}

/// Text is sent to trusted devices only, and to each of those whose address
/// and key are known.
pub proof fn only_trusted_devices_are_sent_text(devices: Seq<Device>)
    ensures
        forall|k: int|
            0 <= k < targets(devices).len() ==> is_trusted_device(
                devices,
                #[trigger] targets(devices)[k],
            ),
        forall|i: int|
            0 <= i < devices.len() && #[trigger] target(devices[i]) is Some ==> targets(
                devices,
            ).contains(target(devices[i])->0),
    decreases devices.len(),
{
    if devices.len() > 0 {
        let less = devices.drop_last();
        let last = devices.last();
        only_trusted_devices_are_sent_text(less);
        let before = targets(less);
        let all = targets(devices);
        assert forall|k: int| 0 <= k < all.len() implies is_trusted_device(
            devices,
            #[trigger] all[k],
        ) by {
            if k < before.len() {
                assert(all[k] == before[k]);
                assert(is_trusted_device(less, before[k]));
                let i = choose|i: int|
                    0 <= i < less.len() && #[trigger] target(less[i]) == Some(before[k])
                        && less[i].trust_state == TrustState::Trusted;
                assert(target(devices[i]) == Some(all[k]));
            } else {
                assert(target(devices[devices.len() - 1]) == Some(all[k]));
            }
        }
        assert forall|i: int|
            0 <= i < devices.len() && #[trigger] target(devices[i]) is Some implies all.contains(
            target(devices[i])->0,
        ) by {
            if i < less.len() {
                assert(target(less[i]) is Some);
                assert(before.contains(target(less[i])->0));
                let k = choose|k: int| 0 <= k < before.len() && before[k] == target(less[i])->0;
                assert(all[k] == target(devices[i])->0);
            } else {
                assert(all.last() == target(last)->0);
            }
        }
    }
}

/// Keeps a text until it has arrived everywhere. A later text takes its place.
pub fn hold_pending(pending: &mut Option<String>, text: &str)
    ensures
        optional_text(*final(pending)) == Some(text@),
{
    *pending = Some(text.to_owned());
}

/// What is still kept after a text was sent to all targets: nothing, where it
/// arrived everywhere and no later text took its place.
pub open spec fn settled_pending(
    pending: Option<Seq<char>>,
    text: Seq<char>,
    failed: bool,
) -> Option<Seq<char>> {
    if !failed && pending == Some(text) {
        None
    } else {
        pending
    }
}

/// Lets go of a text that arrived everywhere.
pub fn settle_pending(pending: &mut Option<String>, text: &str, failed: bool)
    ensures
        optional_text(*final(pending)) == settled_pending(
            optional_text(*old(pending)),
            text@,
            failed,
        ),
{
    if !failed && holds_text(pending, text) {
        *pending = None;
    }
}

/// Whether a broadcast failed, given for each target whether the text was
/// delivered: at first or when it was tried again.
pub fn broadcast_failed(delivered: &[bool]) -> (res: bool)
    ensures
        res == exists|i: int| 0 <= i < delivered@.len() && !(#[trigger] delivered@[i]),
{
    let mut i: usize = 0;
    while i < delivered.len()
        invariant
            i <= delivered@.len(),
            forall|k: int| 0 <= k < i ==> #[trigger] delivered@[k],
        decreases delivered@.len() - i,
    {
        if !delivered[i] {
            return true;
        }
        i += 1;
    }
    false
}

/// A text that did not arrive is kept, and a later text is never let go of by
/// an earlier one.
pub proof fn undelivered_text_is_kept(
    pending: Option<Seq<char>>,
    text: Seq<char>,
    failed: bool,
)
    requires
        failed || pending != Some(text),
    ensures
        settled_pending(pending, text, failed) == pending,
{
}

/// Where a delivery that failed is tried again: at the addresses at which the
/// device is sighted, by its identifier or by its key, in their order.
pub open spec fn retries(sightings: Seq<Sighted>, to: Target) -> Seq<Seq<char>>
    decreases sightings.len(),
{
    if sightings.len() == 0 {
        Seq::empty()
    } else {
        let before = retries(sightings.drop_last(), to);
        let last = sightings.last();
        if last.packet.id == to.id || last.packet.public_key == to.public_key {
            before.push(last.endpoint)
        } else {
            before
        }
    }
}

/// Where a delivery that failed is tried again.
pub fn retry_endpoints(sightings: &[Sighting], delivery: &Delivery) -> (res: Vec<String>)
    ensures
        texts(res@) == retries(sighting_list(sightings@), delivery@),
{
    let ghost list = sighting_list(sightings@);
    let mut res: Vec<String> = Vec::new();
    let mut i: usize = 0;
    assert(texts(res@) =~= retries(list.take(0), delivery@));
    while i < sightings.len()
        invariant
            i <= sightings.len(),
            list == sighting_list(sightings@),
            texts(res@) == retries(list.take(i as int), delivery@),
        decreases sightings.len() - i,
    {
        let ghost before = texts(res@);
        let sighting = &sightings[i];
        assert(list[i as int] == sighting@);
        assert(list.take(i + 1).drop_last() =~= list.take(i as int));
        assert(list.take(i + 1).last() == sighting@);
        if sighting.packet.id.same(&delivery.id) || same(
            sighting.packet.public_key.as_str(),
            delivery.public_key.as_str(),
        ) {
            let endpoint = sighting.endpoint.clone();
            res.push(endpoint);
            assert(texts(res@) =~= before.push(endpoint@));
        }
        i += 1;
    }
    assert(list.take(i as int) =~= list);
    res
}

/// What follows after a try to deliver a text again.
#[derive(Debug, PartialEq, Eq)]
pub enum RetryAction<'a> {
    /// The text has arrived.
    Delivered,
    /// Send it to this address.
    Try(&'a str),
    /// It did not arrive at any address.
    GiveUp,
}

/// What follows after a try to deliver a text again, as mathematical values.
pub enum Retry {
    Delivered,
    Try(Seq<char>),
    GiveUp,
}

impl<'a> View for RetryAction<'a> {
    type V = Retry;

    open spec fn view(&self) -> Retry {
        match self {
            RetryAction::Delivered => Retry::Delivered,
            RetryAction::Try(endpoint) => Retry::Try(endpoint@),
            RetryAction::GiveUp => Retry::GiveUp,
        }
    }
}

/// What follows once that many addresses were tried, given whether the last try
/// delivered the text: the next address is tried, until one try delivers it or
/// none is left.
pub open spec fn retrying(endpoints: Seq<Seq<char>>, tried: nat, delivered: bool) -> Retry {
    if delivered {
        Retry::Delivered
    } else if tried < endpoints.len() {
        Retry::Try(endpoints[tried as int])
    } else {
        Retry::GiveUp
    }
}

/// What follows once that many addresses were tried, given whether the last try
/// delivered the text.
pub fn retry_step<'a>(endpoints: &'a [String], tried: usize, delivered: bool) -> (res: RetryAction<
    'a,
>)
    ensures
        res@ == retrying(texts(endpoints@), tried as nat, delivered),
{
    if delivered {
        RetryAction::Delivered
    } else if tried < endpoints.len() {
        RetryAction::Try(endpoints[tried].as_str())
    } else {
        RetryAction::GiveUp
    }
}

/// How retrying ends that goes on after so many tries, where sending to an
/// address arrives or not: whether the text arrived, and how many addresses
/// were tried in all.
pub open spec fn retried(
    endpoints: Seq<Seq<char>>,
    arrives: spec_fn(int) -> bool,
    tried: nat,
    delivered: bool,
) -> (bool, nat)
    decreases endpoints.len() - tried,
{
    match retrying(endpoints, tried, delivered) {
        Retry::Delivered => (true, tried),
        Retry::Try(_) => if tried < endpoints.len() {
            retried(endpoints, arrives, tried + 1, arrives(tried as int))
        } else {
            (false, tried)
        },
        Retry::GiveUp => (false, tried),
    }
}

/// A text that is sent again arrives where it arrives at one of the addresses,
/// and then no address behind the first such one is tried. Otherwise every
/// address is tried.
pub proof fn retrying_ends_with_first_arrival(
    endpoints: Seq<Seq<char>>,
    arrives: spec_fn(int) -> bool,
    tried: nat,
)
    requires
        tried <= endpoints.len(),
    ensures
        ({
            let (delivered, all) = retried(endpoints, arrives, tried, false);
            &&& tried <= all <= endpoints.len()
            &&& delivered <==> exists|i: int| tried <= i < endpoints.len() && #[trigger] arrives(i)
            &&& delivered ==> all > tried && arrives(all - 1)
            &&& forall|i: int| tried <= i < all - 1 ==> !#[trigger] arrives(i)
            &&& !delivered ==> all == endpoints.len()
        }),
    decreases endpoints.len() - tried,
{
    if tried < endpoints.len() {
        if arrives(tried as int) {
            assert(retried(endpoints, arrives, tried + 1, true) == (true, tried + 1));
        } else {
            retrying_ends_with_first_arrival(endpoints, arrives, tried + 1);
            let (delivered, all) = retried(endpoints, arrives, tried + 1, false);
            if exists|i: int| tried <= i < endpoints.len() && #[trigger] arrives(i) {
                let i = choose|i: int| tried <= i < endpoints.len() && #[trigger] arrives(i);
                assert(i != tried);
                assert(delivered);
            }
        }
    }
}

/// Seals a text for a device to which it is sent.
pub fn delivery_packet(local: &LocalDevice, delivery: &Delivery, text: &str) -> (res: Result<
    EncryptedTextPacket,
    Error,
>)
    ensures
        exists|nonce: Option<[u8; NONCE_BYTES]>| #[trigger]
            seals(
                res,
                EncryptedPacketKind::Text,
                local.id@,
                local.private_key@,
                delivery.public_key@,
                nonce,
                text@,
            ),
        res matches Ok(packet) ==> reaches_receiver(
            packet@,
            local.private_key@,
            delivery.public_key@,
            text@,
        ),
{
    encrypt_text(&local.id, &local.private_key, delivery.public_key.as_str(), text)
}

/// The address and the key of a device that is to learn that it was accepted.
pub fn pairing_address(device: &DeviceInfo) -> (res: Result<(String, String), Error>)
    ensures
        match (device@.endpoint, device@.public_key) {
            (None, _) => res matches Err(error) && error.is(
                ErrorKind::AddrNotAvailable,
                "device is offline",
            ),
            (Some(_), None) => res matches Err(error) && error.is(
                ErrorKind::InvalidData,
                "device key is missing",
            ),
            (Some(endpoint), Some(key)) => res matches Ok(pair) && pair.0@ == endpoint && pair.1@
                == key,
        },
{
    match &device.endpoint {
        None => Err(Error::new(ErrorKind::AddrNotAvailable, "device is offline")),
        Some(endpoint) => match &device.public_key {
            None => Err(Error::new(ErrorKind::InvalidData, "device key is missing")),
            Some(key) => Ok((endpoint.clone(), key.clone())),
        },
    }
}

/// The packet of a pair of an address and a packet.
pub open spec fn packet_of_pair(res: Result<(String, EncryptedTextPacket), Error>) -> Result<
    EncryptedTextPacket,
    Error,
> {
    match res {
        Ok(pair) => Ok(pair.1),
        Err(error) => Err(error),
    }
}

/// Seals for a device the proof that it was accepted. The proof is sealed with
/// the keys that seal clipboard text, so that the other side can make the trust
/// mutual. Returns the device's address and the packet.
pub fn pairing_accept(local: &LocalDevice, device: &DeviceInfo) -> (res: Result<
    (String, EncryptedTextPacket),
    Error,
>)
    ensures
        match (device@.endpoint, device@.public_key) {
            (None, _) => res matches Err(error) && error.is(
                ErrorKind::AddrNotAvailable,
                "device is offline",
            ),
            (Some(_), None) => res matches Err(error) && error.is(
                ErrorKind::InvalidData,
                "device key is missing",
            ),
            (Some(endpoint), Some(key)) => {
                &&& exists|nonce: Option<[u8; NONCE_BYTES]>| #[trigger]
                    seals(
                        packet_of_pair(res),
                        EncryptedPacketKind::PairingAccept,
                        local.id@,
                        local.private_key@,
                        key,
                        nonce,
                        PAIRING_ACCEPT_TEXT@,
                    )
                &&& res matches Ok(pair) ==> pair.0@ == endpoint
                &&& res matches Ok(pair) ==> reaches_receiver(
                    pair.1@,
                    local.private_key@,
                    key,
                    PAIRING_ACCEPT_TEXT@,
                )
            },
        },
{
    let (endpoint, key) = match pairing_address(device) {
        Ok(pair) => pair,
        Err(error) => {
            return Err(error);
        },
    };
    let sealed = encrypt_pairing_accept(
        &local.id,
        &local.private_key,
        key.as_str(),
        PAIRING_ACCEPT_TEXT,
    );
    let ghost given = sealed;
    let res = match sealed {
        Ok(packet) => Ok((endpoint, packet)),
        Err(error) => Err(error),
    };
    assert(packet_of_pair(res) == given);
    res
}

/// The trusted device that is to learn that it was accepted.
pub fn accepted_device<'a>(store: &'a TrustStore, id: &DeviceId) -> (res: Result<
    &'a DeviceInfo,
    Error,
>)
    ensures
        match first(store@, trusted_with_id(id@)) {
            Some(i) => res matches Ok(device) && device@ == store@[i],
            None => res matches Err(error) && error.is(
                ErrorKind::NotFound,
                "trusted device not found",
            ),
        },
{
    match store.trusted_device(id) {
        Some(device) => Ok(device),
        None => Err(Error::new(ErrorKind::NotFound, "trusted device not found")),
    }
}

/// To whom text is sent, device by device: to the devices of two lists as to
/// those of the first and then to those of the second; and to one device exactly
/// where it is trusted and has an address and a key, once, at that address and
/// sealed for that key.
pub proof fn every_ready_device_is_sent_text_once(left: Seq<Device>, right: Seq<Device>)
    ensures
        targets(left + right) == targets(left) + targets(right),
        targets(Seq::empty()) == Seq::<Target>::empty(),
        forall|one: Device|
            targets(#[trigger] seq![one]) == if one.trust_state == TrustState::Trusted
                && one.endpoint is Some && one.public_key is Some {
                seq![
                    Target {
                        id: one.id,
                        name: one.name,
                        endpoint: one.endpoint->0,
                        public_key: one.public_key->0,
                    },
                ]
            } else {
                Seq::<Target>::empty()
            },
    decreases right.len(),
{
    if right.len() == 0 {
        assert(left + right =~= left);
        assert(targets(left) + targets(right) =~= targets(left));
    } else {
        every_ready_device_is_sent_text_once(left, right.drop_last());
        assert((left + right).drop_last() =~= left + right.drop_last());
        assert((left + right).last() == right.last());
        assert(targets(left + right) =~= targets(left) + targets(right));
    }
    assert forall|one: Device|
        targets(#[trigger] seq![one]) == if one.trust_state == TrustState::Trusted
            && one.endpoint is Some && one.public_key is Some {
            seq![
                Target {
                    id: one.id,
                    name: one.name,
                    endpoint: one.endpoint->0,
                    public_key: one.public_key->0,
                },
            ]
        } else {
            Seq::<Target>::empty()
        } by {
        assert(seq![one].drop_last() =~= Seq::empty());
        assert(targets(Seq::empty()) =~= Seq::empty());
        match target(one) {
            Some(to) => {
                assert(targets(seq![one]) =~= seq![to]);
            },
            None => {},
        }
    }
}

/// A failed delivery is tried again at every address at which a sighting shows
/// the device, by its identifier or by its key, in their order, and at no
/// other.
pub proof fn every_sighting_of_the_device_is_tried(
    left: Seq<Sighted>,
    right: Seq<Sighted>,
    to: Target,
)
    ensures
        retries(left + right, to) == retries(left, to) + retries(right, to),
        retries(Seq::empty(), to) == Seq::<Seq<char>>::empty(),
        forall|one: Sighted|
            retries(#[trigger] seq![one], to) == if one.packet.id == to.id
                || one.packet.public_key == to.public_key {
                seq![one.endpoint]
            } else {
                Seq::<Seq<char>>::empty()
            },
    decreases right.len(),
{
    if right.len() == 0 {
        assert(left + right =~= left);
        assert(retries(left, to) + retries(right, to) =~= retries(left, to));
    } else {
        every_sighting_of_the_device_is_tried(left, right.drop_last(), to);
        assert((left + right).drop_last() =~= left + right.drop_last());
        assert((left + right).last() == right.last());
        assert(retries(left + right, to) =~= retries(left, to) + retries(right, to));
    }
    assert forall|one: Sighted|
        retries(#[trigger] seq![one], to) == if one.packet.id == to.id || one.packet.public_key
            == to.public_key {
            seq![one.endpoint]
        } else {
            Seq::<Seq<char>>::empty()
        } by {
        assert(seq![one].drop_last() =~= Seq::empty());
        assert(retries(Seq::empty(), to) =~= Seq::empty());
        assert(retries(seq![one], to) =~= if one.packet.id == to.id || one.packet.public_key
            == to.public_key {
            seq![one.endpoint]
        } else {
            Seq::<Seq<char>>::empty()
        });
    }
}

/// A text that arrived everywhere is let go, so that it is not sent again.
pub proof fn delivered_text_is_let_go(text: Seq<char>)
    ensures
        settled_pending(Some(text), text, false) is None,
        settled_pending(None, text, false) is None,
        settled_pending(Some(text), text, true) == Some(text),
{
}

/// Deliveries say all that they hold, in their order.
pub proof fn deliveries_say_what_they_hold(deliveries: Seq<Delivery>, at: int)
    requires
        0 <= at < deliveries.len(),
    ensures
        delivery_list(deliveries).len() == deliveries.len(),
        delivery_list(deliveries)[at] == (Target {
            id: deliveries[at].id@,
            name: deliveries[at].name@,
            endpoint: deliveries[at].endpoint@,
            public_key: deliveries[at].public_key@,
        }),
{
}

} // verus!
