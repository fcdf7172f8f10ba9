//! What becomes of a packet that another device has sent.

use vstd::prelude::*;

use crate::crypto::{key_bytes, x25519_public};
use crate::device::{optional_text, Device, TrustState};
use crate::error::{Error, Verdict};
use crate::presence::{after, opened, to_write, Session};
use crate::registry::{first, first_absent, first_found, has_id, trusting};
use crate::registry_laws::{
    compacting_changes_only_duplicates, settled, trusted_lookup_finds_trusted_device,
};
use crate::text::same;
use crate::transport::{
    decrypt_text, opened_packet, reaches_receiver, EncryptedPacketKind, EncryptedTextPacket,
    Packet,
};
use crate::trust_store::{devices_in, stored, trusted_with_id, TrustStore};
use crate::trust_store_laws::trust_survives_reload;
use crate::window::trusted_all;
use crate::window_laws::devices_are_trusted_in_turn;

verus! {

/// The text in a packet that accepts a pairing.
pub const PAIRING_ACCEPT_TEXT: &'static str = "\0SPAN_PAIR_ACCEPT_V1\0";

/// What becomes of a packet.
#[derive(Debug, PartialEq, Eq)]
pub enum Reception {
    /// Refused: the sender is not known.
    UnknownDevice,
    /// Refused: the key of the sender is not known.
    MissingKey,
    /// The sender has accepted this device, and is trusted from now on.
    PairingAccepted,
    /// The sender has accepted this device; nothing changes, because it is
    /// trusted already, or the user has refused it.
    PairingIgnored,
    /// Refused: the sender is not trusted, or the packet is not what it should
    /// be.
    Untrusted,
    /// The text goes to the clipboard.
    Text(String),
}

/// What becomes of a packet, as mathematical values.
pub enum Received {
    UnknownDevice,
    MissingKey,
    PairingAccepted,
    PairingIgnored,
    Untrusted,
    Text(Seq<char>),
}

impl View for Reception {
    type V = Received;

    open spec fn view(&self) -> Received {
        match self {
            Reception::UnknownDevice => Received::UnknownDevice,
            Reception::MissingKey => Received::MissingKey,
            Reception::PairingAccepted => Received::PairingAccepted,
            Reception::PairingIgnored => Received::PairingIgnored,
            Reception::Untrusted => Received::Untrusted,
            Reception::Text(text) => Received::Text(text@),
        }
    }
}

/// What becomes of the text of a packet, given its kind and how far the sender
/// is trusted. Only a trusted sender's text goes to the clipboard. A pairing
/// makes a sender trusted whom the user has not decided on, and no other.
pub open spec fn judged(
    kind: EncryptedPacketKind,
    state: TrustState,
    text: Seq<char>,
) -> Received {
    if kind == EncryptedPacketKind::PairingAccept && text == PAIRING_ACCEPT_TEXT@ {
        if state == TrustState::Discovered || state == TrustState::Pending {
            Received::PairingAccepted
        } else {
            Received::PairingIgnored
        }
    } else if kind != EncryptedPacketKind::Text || state != TrustState::Trusted {
        Received::Untrusted
    } else {
        Received::Text(text)
    }
}

/// What becomes of the text of a packet.
pub fn judge(kind: EncryptedPacketKind, state: TrustState, text: String) -> (res: Reception)
    ensures
        res@ == judged(kind, state, text@),
{
    if kind == EncryptedPacketKind::PairingAccept && same(text.as_str(), PAIRING_ACCEPT_TEXT) {
        if state == TrustState::Discovered || state == TrustState::Pending {
            Reception::PairingAccepted
        } else {
            Reception::PairingIgnored
        }
    } else if kind != EncryptedPacketKind::Text || state != TrustState::Trusted {
        Reception::Untrusted
    } else {
        Reception::Text(text)
    }
}

/// What becomes of a packet, given the known devices and the private key of
/// this device.
pub open spec fn received(devices: Seq<Device>, packet: Packet, private: Seq<u8>) -> Verdict<
    Received,
> {
    match first(devices, has_id(packet.from)) {
        None => Verdict::Done(Received::UnknownDevice),
        Some(i) => match devices[i].public_key {
            None => Verdict::Done(Received::MissingKey),
            Some(key) => match opened_packet(packet, private, key) {
                Verdict::Done(text) => Verdict::Done(
                    judged(packet.kind, devices[i].trust_state, text),
                ),
                Verdict::Fails(kind, message) => Verdict::Fails(kind, message),
            },
        },
    }
}

/// Whether a result is the one that a verdict says.
pub open spec fn agrees(res: Result<Reception, Error>, verdict: Verdict<Received>) -> bool {
    match res {
        Ok(reception) => verdict == Verdict::Done(reception@),
        Err(error) => verdict == Verdict::<Received>::Fails(error.kind, error.message@),
    }
}

/// What becomes of a packet.
pub fn receive(
    store: &TrustStore,
    packet: &EncryptedTextPacket,
    private_key: &[u8; 32],
) -> (res: Result<Reception, Error>)
    ensures
        agrees(res, received(store@, packet@, private_key@)),
{
    let sender = match store.device(&packet.from) {
        Some(sender) => sender,
        None => {
            return Ok(Reception::UnknownDevice);
        },
    };
    let key = match &sender.public_key {
        Some(key) => key,
        None => {
            return Ok(Reception::MissingKey);
        },
    };
    match decrypt_text(packet, private_key, key.as_str()) {
        Ok(text) => Ok(judge(packet.kind, sender.trust_state, text)),
        Err(error) => Err(error),
    }
}

/// The store after a packet: loaded, and with the sender trusted where the
/// packet accepts the pairing.
pub open spec fn session_after(contents: Seq<char>, packet: Packet, private: Seq<u8>) -> Session {
    let start = opened(contents);
    if received(start.devices, packet, private) == Verdict::Done(Received::PairingAccepted) {
        after(start, trusting(devices_in(start.contents), packet.from))
    } else {
        start
    }
}

/// Takes a packet in, given what the file of the store holds. Returns what
/// becomes of the packet, and what has to be written to the file, if anything.
pub fn take_packet(
    contents: &str,
    packet: &EncryptedTextPacket,
    private_key: &[u8; 32],
) -> (res: (Result<Reception, Error>, Option<String>))
    ensures
        agrees(res.0, received(opened(contents@).devices, packet@, private_key@)),
        optional_text(res.1) == to_write(session_after(contents@, packet@, private_key@)),
{
    let (mut store, rewrite) = TrustStore::load(contents);
    let reception = receive(&store, packet, private_key);
    match &reception {
        Ok(Reception::PairingAccepted) => {
            let commit = match &rewrite {
                Some(text) => store.trust_existing(text.as_str(), &packet.from),
                None => store.trust_existing(contents, &packet.from),
            };
            match commit.contents {
                Some(text) => (reception, Some(text)),
                None => (reception, rewrite),
            }
        },
        _ => (reception, rewrite),
    }
}

/// What becomes of the one packet that a user waits for.
#[derive(Debug, PartialEq, Eq)]
pub enum OnceReception {
    /// It carries no text.
    NotText,
    /// Refused: the sender is not trusted.
    UntrustedSender,
    /// Refused: the key of the sender is not known.
    MissingKey,
    /// The text goes to the clipboard.
    Text(String),
}

/// What becomes of the one packet that a user waits for, as mathematical values.
pub enum ReceivedOnce {
    NotText,
    UntrustedSender,
    MissingKey,
    Text(Seq<char>),
}

impl View for OnceReception {
    type V = ReceivedOnce;

    open spec fn view(&self) -> ReceivedOnce {
        match self {
            OnceReception::NotText => ReceivedOnce::NotText,
            OnceReception::UntrustedSender => ReceivedOnce::UntrustedSender,
            OnceReception::MissingKey => ReceivedOnce::MissingKey,
            OnceReception::Text(text) => ReceivedOnce::Text(text@),
        }
    }
}

/// What becomes of the one packet that a user waits for.
pub open spec fn received_once(devices: Seq<Device>, packet: Packet, private: Seq<u8>) -> Verdict<
    ReceivedOnce,
> {
    if packet.kind != EncryptedPacketKind::Text {
        Verdict::Done(ReceivedOnce::NotText)
    } else {
        match first(devices, trusted_with_id(packet.from)) {
            None => Verdict::Done(ReceivedOnce::UntrustedSender),
            Some(i) => match devices[i].public_key {
                None => Verdict::Done(ReceivedOnce::MissingKey),
                Some(key) => match opened_packet(packet, private, key) {
                    Verdict::Done(text) => Verdict::Done(ReceivedOnce::Text(text)),
                    Verdict::Fails(kind, message) => Verdict::Fails(kind, message),
                },
            },
        }
    }
}

/// What becomes of the one packet that a user waits for: the text of a trusted
/// sender goes to the clipboard.
pub fn receive_once(
    store: &TrustStore,
    packet: &EncryptedTextPacket,
    private_key: &[u8; 32],
) -> (res: Result<OnceReception, Error>)
    ensures
        match res {
            Ok(reception) => received_once(store@, packet@, private_key@) == Verdict::Done(
                reception@,
            ),
            Err(error) => received_once(store@, packet@, private_key@) == Verdict::<
                ReceivedOnce,
            >::Fails(error.kind, error.message@),
        },
        if packet@.kind != EncryptedPacketKind::Text {
            res == Ok::<OnceReception, Error>(OnceReception::NotText)
        } else {
            match first(store@, trusted_with_id(packet@.from)) {
                None => res == Ok::<OnceReception, Error>(OnceReception::UntrustedSender),
                Some(i) => match store@[i].public_key {
                    None => res == Ok::<OnceReception, Error>(OnceReception::MissingKey),
                    Some(key) => match opened_packet(packet@, private_key@, key) {
                        Verdict::Done(text) => res matches Ok(OnceReception::Text(got)) && got@
                            == text,
                        Verdict::Fails(kind, message) => res matches Err(error) && error.kind
                            == kind && error.message@ == message,
                    },
                },
            }
        },
{
    if packet.kind != EncryptedPacketKind::Text {
        return Ok(OnceReception::NotText);
    }
    let sender = match store.trusted_device(&packet.from) {
        Some(sender) => sender,
        None => {
            return Ok(OnceReception::UntrustedSender);
        },
    };
    match &sender.public_key {
        Some(key) => match decrypt_text(packet, private_key, key.as_str()) {
            Ok(text) => Ok(OnceReception::Text(text)),
            Err(error) => Err(error),
        },
        None => Ok(OnceReception::MissingKey),
    }
}

/// Only text from a trusted device goes to the clipboard.
pub proof fn only_trusted_text_is_taken(
    devices: Seq<Device>,
    packet: Packet,
    private: Seq<u8>,
    text: Seq<char>,
)
    requires
        received(devices, packet, private) == Verdict::Done(Received::Text(text)),
    ensures
        packet.kind == EncryptedPacketKind::Text,
        first(devices, has_id(packet.from)) is Some,
        devices[first(devices, has_id(packet.from))->0].trust_state == TrustState::Trusted,
{
}

/// A pairing that the other side accepts never overrides a decision of the
/// user: the sender's record is neither revoked nor blocked.
pub proof fn pairing_respects_refusal(devices: Seq<Device>, packet: Packet, private: Seq<u8>)
    requires
        received(devices, packet, private) == Verdict::Done(Received::PairingAccepted),
    ensures
        packet.kind == EncryptedPacketKind::PairingAccept,
        first(devices, has_id(packet.from)) is Some,
        ({
            let state = devices[first(devices, has_id(packet.from))->0].trust_state;
            state == TrustState::Discovered || state == TrustState::Pending
        }),
{
}

/// Whether two devices know each other's keys: the first knows the second's in
/// hexadecimal, as the second has it, and the other way round.
pub open spec fn keys_known(
    sender: Seq<u8>,
    receiver: Seq<u8>,
    sender_public: Seq<char>,
    receiver_public: Seq<char>,
) -> bool {
    &&& sender.len() == 32
    &&& receiver.len() == 32
    &&& key_bytes(sender_public) == Some(x25519_public(sender))
    &&& key_bytes(receiver_public) == Some(x25519_public(receiver))
}

/// Text that a device seals for another one goes to the other's clipboard,
/// where the two know each other's keys and the other trusts the first.
pub proof fn sealed_text_arrives(
    devices: Seq<Device>,
    packet: Packet,
    sender: Seq<u8>,
    receiver: Seq<u8>,
    sender_public: Seq<char>,
    receiver_public: Seq<char>,
    text: Seq<char>,
)
    requires
        keys_known(sender, receiver, sender_public, receiver_public),
        reaches_receiver(packet, sender, receiver_public, text),
        packet.kind == EncryptedPacketKind::Text,
        first(devices, has_id(packet.from)) is Some,
        devices[first(devices, has_id(packet.from))->0].trust_state == TrustState::Trusted,
        devices[first(devices, has_id(packet.from))->0].public_key == Some(sender_public),
    ensures
        received(devices, packet, receiver) == Verdict::Done(Received::Text(text)),
{
    assert(opened_packet(packet, receiver, sender_public) == Verdict::Done(text));
}

/// A pairing that one device accepts is accepted by the other, where the two
/// know each other's keys and the other's user has not decided yet.
pub proof fn pairing_becomes_mutual(
    devices: Seq<Device>,
    packet: Packet,
    sender: Seq<u8>,
    receiver: Seq<u8>,
    sender_public: Seq<char>,
    receiver_public: Seq<char>,
)
    requires
        keys_known(sender, receiver, sender_public, receiver_public),
        reaches_receiver(packet, sender, receiver_public, PAIRING_ACCEPT_TEXT@),
        packet.kind == EncryptedPacketKind::PairingAccept,
        first(devices, has_id(packet.from)) is Some,
        devices[first(devices, has_id(packet.from))->0].public_key == Some(sender_public),
        ({
            let state = devices[first(devices, has_id(packet.from))->0].trust_state;
            state == TrustState::Discovered || state == TrustState::Pending
        }),
    ensures
        received(devices, packet, receiver) == Verdict::Done(Received::PairingAccepted),
{
    assert(opened_packet(packet, receiver, sender_public) == Verdict::Done(PAIRING_ACCEPT_TEXT@));
}

/// A sender whose pairing is accepted is trusted when the file is loaded again,
/// where the file had no two records of one device and gives its records back
/// unchanged.
pub proof fn accepted_pairing_is_kept(contents: Seq<char>, packet: Packet, private: Seq<u8>)
    requires
        received(opened(contents).devices, packet, private) == Verdict::Done(
            Received::PairingAccepted,
        ),
        settled(devices_in(contents)),
        forall|i: int|
            0 <= i < devices_in(contents).len() ==> stored(#[trigger] devices_in(contents)[i])
                == devices_in(contents)[i],
    ensures
        ({
            let session = session_after(contents, packet, private);
            &&& to_write(session) == Some(session.contents)
            &&& first(opened(session.contents).devices, trusted_with_id(packet.from)) is Some
        }),
{
    let devices = devices_in(contents);
    compacting_changes_only_duplicates(devices);
    pairing_respects_refusal(opened(contents).devices, packet, private);
    trust_survives_reload(contents, packet.from);
}

/// What becomes of the text in a packet, by the kind of the packet and the
/// decision of the user. Text goes to the clipboard from a trusted device only.
/// The proof of a pairing makes a device trusted that the user has not decided
/// on, and does nothing where the user has. Any other packet that claims a
/// pairing is refused.
pub proof fn packet_is_judged_by_decision(text: Seq<char>, state: TrustState)
    ensures
        judged(EncryptedPacketKind::Text, TrustState::Trusted, text) == Received::Text(text),
        state != TrustState::Trusted ==> judged(EncryptedPacketKind::Text, state, text)
            == Received::Untrusted,
        text != PAIRING_ACCEPT_TEXT@ ==> judged(EncryptedPacketKind::PairingAccept, state, text)
            == Received::Untrusted,
        judged(EncryptedPacketKind::PairingAccept, TrustState::Discovered, PAIRING_ACCEPT_TEXT@)
            == Received::PairingAccepted,
        judged(EncryptedPacketKind::PairingAccept, TrustState::Pending, PAIRING_ACCEPT_TEXT@)
            == Received::PairingAccepted,
        judged(EncryptedPacketKind::PairingAccept, TrustState::Trusted, PAIRING_ACCEPT_TEXT@)
            == Received::PairingIgnored,
        judged(EncryptedPacketKind::PairingAccept, TrustState::Revoked, PAIRING_ACCEPT_TEXT@)
            == Received::PairingIgnored,
        judged(EncryptedPacketKind::PairingAccept, TrustState::Blocked, PAIRING_ACCEPT_TEXT@)
            == Received::PairingIgnored,
{
}

/// A packet from a device that no record has, or whose key is not known, is
/// refused without being opened. One from a known device is opened with that
/// device's key, and fails where it does not open.
pub proof fn packet_is_opened_with_the_sender_s_key(
    devices: Seq<Device>,
    at: int,
    packet: Packet,
    private: Seq<u8>,
)
    ensures
        (forall|j: int| 0 <= j < devices.len() ==> (#[trigger] devices[j]).id != packet.from)
            ==> received(devices, packet, private) == Verdict::Done(Received::UnknownDevice),
        0 <= at < devices.len() && devices[at].id == packet.from && (forall|j: int|
            0 <= j < at ==> (#[trigger] devices[j]).id != packet.from) ==> match devices[at].public_key {
            None => received(devices, packet, private) == Verdict::Done(Received::MissingKey),
            Some(key) => match opened_packet(packet, private, key) {
                Verdict::Done(text) => received(devices, packet, private) == Verdict::Done(
                    judged(packet.kind, devices[at].trust_state, text),
                ),
                Verdict::Fails(kind, message) => received(devices, packet, private)
                    == Verdict::<Received>::Fails(kind, message),
            },
        },
{
    let sender = has_id(packet.from);
    if forall|j: int| 0 <= j < devices.len() ==> (#[trigger] devices[j]).id != packet.from {
        assert forall|j: int| 0 <= j < devices.len() implies !sender(#[trigger] devices[j]) by {}
        first_absent(devices, sender);
    }
    if 0 <= at < devices.len() && devices[at].id == packet.from && (forall|j: int|
        0 <= j < at ==> (#[trigger] devices[j]).id != packet.from) {
        assert forall|j: int| 0 <= j < at implies !sender(#[trigger] devices[j]) by {}
        first_found(devices, sender, at);
    }
}

/// A packet changes the store only where it makes its sender trusted; text, and
/// whatever is refused, leaves the file as loading it leaves it.
pub proof fn only_a_pairing_changes_the_store(
    contents: Seq<char>,
    packet: Packet,
    private: Seq<u8>,
)
    requires
        received(opened(contents).devices, packet, private) != Verdict::Done(
            Received::PairingAccepted,
        ),
    ensures
        session_after(contents, packet, private) == opened(contents),
        settled(devices_in(contents)) ==> to_write(session_after(contents, packet, private))
            is None,
{
    compacting_changes_only_duplicates(devices_in(contents));
}

/// A pairing that a device accepts does what accepting that device in the window
/// does.
pub proof fn pairing_trusts_like_the_window(contents: Seq<char>, packet: Packet, private: Seq<u8>)
    requires
        received(opened(contents).devices, packet, private) == Verdict::Done(
            Received::PairingAccepted,
        ),
    ensures
        session_after(contents, packet, private) == trusted_all(
            opened(contents),
            seq![packet.from],
        ),
{
    devices_are_trusted_in_turn(opened(contents), Seq::empty(), seq![packet.from]);
}

/// The one packet that a user waits for gives its text where a trusted device
/// has sent it and it opens with that device's key. From any other sender it
/// gives none, and a packet that accepts a pairing gives none either.
pub proof fn awaited_text_comes_from_trusted_device(
    devices: Seq<Device>,
    at: int,
    packet: Packet,
    private: Seq<u8>,
)
    ensures
        packet.kind == EncryptedPacketKind::PairingAccept ==> received_once(
            devices,
            packet,
            private,
        ) == Verdict::Done(ReceivedOnce::NotText),
        packet.kind == EncryptedPacketKind::Text && (forall|j: int|
            0 <= j < devices.len() ==> (#[trigger] devices[j]).id != packet.from
                || devices[j].trust_state != TrustState::Trusted) ==> received_once(
            devices,
            packet,
            private,
        ) == Verdict::Done(ReceivedOnce::UntrustedSender),
        packet.kind == EncryptedPacketKind::Text && 0 <= at < devices.len() && devices[at].id
            == packet.from && devices[at].trust_state == TrustState::Trusted && (forall|j: int|
            0 <= j < at ==> (#[trigger] devices[j]).id != packet.from || devices[j].trust_state
                != TrustState::Trusted) ==> match devices[at].public_key {
            None => received_once(devices, packet, private) == Verdict::Done(
                ReceivedOnce::MissingKey,
            ),
            Some(key) => match opened_packet(packet, private, key) {
                Verdict::Done(text) => received_once(devices, packet, private) == Verdict::Done(
                    ReceivedOnce::Text(text),
                ),
                Verdict::Fails(..) => received_once(devices, packet, private) is Fails,
            },
        },
{
    trusted_lookup_finds_trusted_device(devices, packet.from, at);
}

} // verus!
