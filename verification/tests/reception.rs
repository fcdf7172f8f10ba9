use span::crypto::keypair_of;
use span::device::{DeviceId, TrustState};
use span::hex::encode_hex;
use span::reception::{
    judge, receive, receive_once, take_packet, OnceReception, Reception, PAIRING_ACCEPT_TEXT,
};
use span::transport::{encrypt_pairing_accept, encrypt_text, EncryptedPacketKind, EncryptedTextPacket};
use span::trust_store::TrustStore;

fn sender() -> ([u8; 32], [u8; 32]) {
    keypair_of([11; 32])
}

fn receiver() -> ([u8; 32], [u8; 32]) {
    keypair_of([12; 32])
}

fn file(state: &str) -> String {
    format!("s\tSender\tmacos\t{state}\t10.0.0.2\t{}\n", encode_hex(&sender().1))
}

fn text_packet(text: &str) -> EncryptedTextPacket {
    let id = DeviceId::new("s").unwrap();
    encrypt_text(&id, &sender().0, &encode_hex(&receiver().1), text).unwrap()
}

fn pairing_packet(text: &str) -> EncryptedTextPacket {
    let id = DeviceId::new("s").unwrap();
    encrypt_pairing_accept(&id, &sender().0, &encode_hex(&receiver().1), text).unwrap()
}

fn outcome(contents: &str, packet: &EncryptedTextPacket) -> Reception {
    let (store, _) = TrustStore::load(contents);
    receive(&store, packet, &receiver().0).unwrap()
}

#[test]
fn text_of_a_trusted_device_is_taken() {
    assert_eq!(outcome(&file("trusted"), &text_packet("hi")), Reception::Text("hi".to_string()));
    let (taken, write) = take_packet(&file("trusted"), &text_packet("hi"), &receiver().0);
    assert_eq!(taken.unwrap(), Reception::Text("hi".to_string()));
    assert!(write.is_none());
}

#[test]
fn text_of_any_other_device_is_refused() {
    for state in ["discovered", "pending", "revoked", "blocked"] {
        assert_eq!(outcome(&file(state), &text_packet("hi")), Reception::Untrusted);
    }
    assert_eq!(outcome("", &text_packet("hi")), Reception::UnknownDevice);
    assert_eq!(
        outcome("s\tSender\tmacos\ttrusted\t10.0.0.2\t\n", &text_packet("hi")),
        Reception::MissingKey
    );
    assert_eq!(outcome(&file("trusted"), &pairing_packet("hi")), Reception::Untrusted);
    assert_eq!(
        outcome(&file("trusted"), &text_packet(PAIRING_ACCEPT_TEXT)),
        Reception::Text(PAIRING_ACCEPT_TEXT.to_string())
    );
}

#[test]
fn packet_of_an_impostor_fails() {
    let id = DeviceId::new("s").unwrap();
    let (other, _) = keypair_of([13; 32]);
    let packet = encrypt_text(&id, &other, &encode_hex(&receiver().1), "hi").unwrap();
    let (taken, write) = take_packet(&file("trusted"), &packet, &receiver().0);
    assert_eq!(taken.unwrap_err().message, "decrypt failed");
    assert!(write.is_none());
}

#[test]
fn pairing_makes_an_undecided_device_trusted() {
    let packet = pairing_packet(PAIRING_ACCEPT_TEXT);
    for state in ["discovered", "pending"] {
        let (taken, write) = take_packet(&file(state), &packet, &receiver().0);
        assert_eq!(taken.unwrap(), Reception::PairingAccepted);
        assert_eq!(write.unwrap(), file("trusted"));
    }
    for state in ["trusted", "revoked", "blocked"] {
        let (taken, write) = take_packet(&file(state), &packet, &receiver().0);
        assert_eq!(taken.unwrap(), Reception::PairingIgnored);
        assert!(write.is_none());
    }
}

#[test]
fn packet_is_judged_by_kind_state_and_text() {
    let accept = PAIRING_ACCEPT_TEXT.to_string();
    assert_eq!(
        judge(EncryptedPacketKind::PairingAccept, TrustState::Pending, accept.clone()),
        Reception::PairingAccepted
    );
    assert_eq!(
        judge(EncryptedPacketKind::PairingAccept, TrustState::Revoked, accept),
        Reception::PairingIgnored
    );
    assert_eq!(
        judge(EncryptedPacketKind::Text, TrustState::Trusted, "x".to_string()),
        Reception::Text("x".to_string())
    );
    assert_eq!(
        judge(EncryptedPacketKind::Text, TrustState::Pending, "x".to_string()),
        Reception::Untrusted
    );
}

#[test]
fn awaited_packet_has_to_be_text_of_a_trusted_device() {
    let once = |contents: &str, packet: &EncryptedTextPacket| {
        let (store, _) = TrustStore::load(contents);
        receive_once(&store, packet, &receiver().0)
    };
    let trusted = file("trusted");
    assert_eq!(
        once(&trusted, &text_packet("hi")).unwrap(),
        OnceReception::Text("hi".to_string())
    );
    assert_eq!(
        once(&trusted, &pairing_packet("hi")).unwrap(),
        OnceReception::NotText
    );
    assert_eq!(
        once(&file("pending"), &text_packet("hi")).unwrap(),
        OnceReception::UntrustedSender
    );
    assert_eq!(
        once("s\tSender\tmacos\ttrusted\t\t\n", &text_packet("hi")).unwrap(),
        OnceReception::MissingKey
    );
    let mut damaged = text_packet("hi");
    damaged.ciphertext[1] ^= 4;
    assert_eq!(once(&trusted, &damaged).unwrap_err().message, "decrypt failed");
}
