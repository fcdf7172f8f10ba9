use std::cell::Cell;

use span::crypto::{generate_keypair, keypair_of, shared_key, NONCE_BYTES};
use span::device::DeviceId;
use span::error::{Error, ErrorKind};
use span::hex::{decode_hex, encode_hex};
use span::transport::{
    accept_step, decrypt_text, dispatch_received_packet, encrypt_pairing_accept, encrypt_text,
    parse_nonce, read_packet, read_plaintext, seal_text, write_packet, AcceptAction,
    EncryptedPacketKind, EncryptedTextPacket, PacketFault, MAX_CIPHERTEXT_BYTES, PAIRING_MAGIC,
    TEXT_PORT,
};

fn sample(ciphertext: Vec<u8>) -> EncryptedTextPacket {
    EncryptedTextPacket {
        kind: EncryptedPacketKind::Text,
        from: DeviceId::new("macbook").unwrap(),
        nonce: [7_u8; NONCE_BYTES],
        ciphertext,
    }
}

fn failure(header: &str) -> (ErrorKind, &'static str) {
    let error = read_packet(header).unwrap_err();
    (error.kind, error.message)
}

#[test]
fn encrypted_packet_round_trip_preserves_header() {
    let packet = EncryptedTextPacket {
        kind: EncryptedPacketKind::Text,
        from: DeviceId::new("macbook").unwrap(),
        nonce: [7_u8; NONCE_BYTES],
        ciphertext: b"hello".to_vec(),
    };

    let line = write_packet(&packet).unwrap();
    let decoded = read_packet(&line).unwrap();

    assert_eq!(decoded, packet);
}

#[test]
fn encrypt_then_decrypt_round_trip() {
    let (sender_private, sender_public) = generate_keypair().unwrap();
    let (receiver_private, receiver_public) = generate_keypair().unwrap();

    let encrypted = encrypt_text(
        &DeviceId::new("sender").unwrap(),
        &sender_private,
        &encode_hex(&receiver_public),
        "hello from span",
    )
    .unwrap();

    let decrypted = decrypt_text(
        &encrypted,
        &receiver_private,
        &encode_hex(&sender_public),
    )
    .unwrap();

    assert_eq!(decrypted, "hello from span");
}

#[test]
fn pairing_packet_has_a_distinct_wire_type() {
    let (sender_private, _) = generate_keypair().unwrap();
    let (_, receiver_public) = generate_keypair().unwrap();
    let packet = encrypt_pairing_accept(
        &DeviceId::new("sender").unwrap(),
        &sender_private,
        &encode_hex(&receiver_public),
        "pairing proof",
    )
    .unwrap();
    let line = write_packet(&packet).unwrap();

    assert!(line.as_bytes().starts_with(PAIRING_MAGIC.as_bytes()));
    assert_eq!(
        read_packet(&line).unwrap().kind,
        EncryptedPacketKind::PairingAccept
    );
}

#[test]
fn packet_callback_error_does_not_stop_later_packets() {
    let packet = EncryptedTextPacket {
        kind: EncryptedPacketKind::Text,
        from: DeviceId::new("sender").unwrap(),
        nonce: [0; NONCE_BYTES],
        ciphertext: Vec::new(),
    };
    let calls = Cell::new(0);
    let callback = |_packet: EncryptedTextPacket| {
        calls.set(calls.get() + 1);
        if calls.get() == 1 {
            Err(Error::new(ErrorKind::InvalidData, "bad packet"))
        } else {
            Ok(())
        }
    };

    let first = dispatch_received_packet(Ok(packet.clone()), &callback);
    let second = dispatch_received_packet(Ok(packet), &callback);

    assert_eq!(calls.get(), 2);
    assert!(matches!(first, Some(PacketFault::Processing(error)) if error.message == "bad packet"));
    assert!(second.is_none());
    let lost = dispatch_received_packet(Err(Error::new(ErrorKind::TimedOut, "late")), &callback);
    assert!(matches!(lost, Some(PacketFault::Receive(error)) if error.kind == ErrorKind::TimedOut));
    assert_eq!(calls.get(), 2);
}

#[test]
fn packet_is_one_line_of_four_fields() {
    let line = write_packet(&sample(vec![0, 255])).unwrap();
    assert_eq!(line, "SPAN_TEXT_V3\tmacbook\t070707070707070707070707\t00ff\n");
    assert_eq!(TEXT_PORT, 46793);
}

#[test]
fn packet_with_an_empty_ciphertext_does_not_read_back() {
    let line = write_packet(&sample(Vec::new())).unwrap();
    assert_eq!(failure(&line), (ErrorKind::InvalidData, "bad ciphertext"));
}

#[test]
fn oversized_ciphertext_is_refused_on_both_sides() {
    let most = sample(vec![1; MAX_CIPHERTEXT_BYTES]);
    let line = write_packet(&most).unwrap();
    assert_eq!(read_packet(&line).unwrap(), most);
    let error = write_packet(&sample(vec![1; MAX_CIPHERTEXT_BYTES + 1])).unwrap_err();
    assert_eq!((error.kind, error.message), (ErrorKind::InvalidInput, "ciphertext too large"));
    let longer = format!("{}01\n", line.trim_end());
    assert_eq!(failure(&longer), (ErrorKind::InvalidData, "ciphertext too large"));
}

#[test]
fn malformed_packets_are_told_apart() {
    assert_eq!(failure(""), (ErrorKind::InvalidData, "bad magic"));
    assert_eq!(failure("SPAN_TEXT_V2\ta\t\t"), (ErrorKind::InvalidData, "bad magic"));
    assert_eq!(failure("SPAN_TEXT_V3"), (ErrorKind::InvalidData, "bad device id"));
    assert_eq!(failure("SPAN_TEXT_V3\t\tx\ty"), (ErrorKind::InvalidData, "bad device id"));
    assert_eq!(failure("SPAN_TEXT_V3\ta"), (ErrorKind::InvalidData, "bad nonce"));
    assert_eq!(failure("SPAN_TEXT_V3\ta\t0707\t00"), (ErrorKind::InvalidData, "bad nonce"));
    let nonce = "07".repeat(12);
    assert_eq!(
        failure(&format!("SPAN_TEXT_V3\ta\t{nonce}")),
        (ErrorKind::InvalidData, "bad ciphertext")
    );
    assert_eq!(
        failure(&format!("SPAN_TEXT_V3\ta\t{nonce}\t0g")),
        (ErrorKind::InvalidData, "bad ciphertext")
    );
    let extra = format!("SPAN_PAIR_ACCEPT_V1\ta\t{nonce}\tAb\tmore \r\n");
    let packet = read_packet(&extra).unwrap();
    assert_eq!(packet.kind, EncryptedPacketKind::PairingAccept);
    assert_eq!(packet.ciphertext, vec![0xab]);
    assert_eq!(parse_nonce(&nonce), Some([7; 12]));
    assert_eq!(parse_nonce("07"), None);
}

#[test]
fn wrong_key_and_tampering_are_noticed() {
    let (sender_private, sender_public) = generate_keypair().unwrap();
    let (receiver_private, receiver_public) = generate_keypair().unwrap();
    let (other_private, _) = generate_keypair().unwrap();
    let id = DeviceId::new("sender").unwrap();
    let mut packet =
        encrypt_text(&id, &sender_private, &encode_hex(&receiver_public), "secret").unwrap();
    assert_eq!(packet.ciphertext.len(), 6 + 16);
    assert_ne!(&packet.ciphertext[..6], b"secret");
    let sender_key = encode_hex(&sender_public);
    let stolen = decrypt_text(&packet, &other_private, &sender_key).unwrap_err();
    assert_eq!((stolen.kind, stolen.message), (ErrorKind::InvalidData, "decrypt failed"));
    packet.ciphertext[0] ^= 1;
    let changed = decrypt_text(&packet, &receiver_private, &sender_key).unwrap_err();
    assert_eq!((changed.kind, changed.message), (ErrorKind::InvalidData, "decrypt failed"));
    let short = decrypt_text(&sample(vec![1, 2]), &receiver_private, &sender_key).unwrap_err();
    assert_eq!(short.message, "decrypt failed");
}

#[test]
fn bad_public_keys_are_refused() {
    let (private, _) = generate_keypair().unwrap();
    let id = DeviceId::new("sender").unwrap();
    for key in ["", "zz", "aa"] {
        let error = encrypt_text(&id, &private, key, "text").unwrap_err();
        assert_eq!((error.kind, error.message), (ErrorKind::InvalidData, "bad public key"));
        let error = decrypt_text(&sample(vec![0; 20]), &private, key).unwrap_err();
        assert_eq!((error.kind, error.message), (ErrorKind::InvalidData, "bad public key"));
    }
}

#[test]
fn missing_randomness_is_reported_after_a_bad_key() {
    let (private, public) = generate_keypair().unwrap();
    let id = DeviceId::new("sender").unwrap();
    let kind = EncryptedPacketKind::Text;
    let error = seal_text(kind, &id, &private, &encode_hex(&public), None, "text").unwrap_err();
    assert_eq!((error.kind, error.message), (ErrorKind::Other, "no randomness"));
    let error = seal_text(kind, &id, &private, "aa", None, "text").unwrap_err();
    assert_eq!(error.message, "bad public key");
}

#[test]
fn nonces_and_keys_are_not_repeated() {
    let (private, public) = generate_keypair().unwrap();
    let id = DeviceId::new("sender").unwrap();
    let key = encode_hex(&public);
    let one = encrypt_text(&id, &private, &key, "text").unwrap();
    let two = encrypt_text(&id, &private, &key, "text").unwrap();
    assert_ne!(one.nonce, two.nonce);
    assert_ne!(one.ciphertext, two.ciphertext);
    assert_ne!(generate_keypair().unwrap().0, private);
}

#[test]
fn sealing_is_determined_by_key_nonce_and_text() {
    let (private, _) = keypair_of([1; 32]);
    let (_, public) = keypair_of([2; 32]);
    let id = DeviceId::new("sender").unwrap();
    let kind = EncryptedPacketKind::Text;
    let key = encode_hex(&public);
    let one = seal_text(kind, &id, &private, &key, Some([3; 12]), "text").unwrap();
    let two = seal_text(kind, &id, &private, &key, Some([3; 12]), "text").unwrap();
    let three = seal_text(kind, &id, &private, &key, Some([4; 12]), "text").unwrap();
    assert_eq!(one, two);
    assert_ne!(one.ciphertext, three.ciphertext);
    assert_eq!(one.clone(), one);
}

#[test]
fn both_sides_derive_one_key() {
    let (alice, alice_public) = keypair_of([5; 32]);
    let (bob, bob_public) = keypair_of([9; 32]);
    let left = shared_key(&alice, &encode_hex(&bob_public), b"span-text-v3").unwrap();
    let right = shared_key(&bob, &encode_hex(&alice_public), b"span-text-v3").unwrap();
    assert_eq!(left, right);
    let other = shared_key(&alice, &encode_hex(&bob_public), b"another use").unwrap();
    assert_ne!(left, other);
    assert_ne!(alice_public, alice);
}

#[test]
fn public_keys_are_those_of_x25519() {
    // The first step of the iteration in section 5.2 of RFC 7748.
    let mut secret = [0_u8; 32];
    secret[0] = 9;
    assert_eq!(
        encode_hex(&keypair_of(secret).1),
        "422c8e7a6227d7bca1350b3e2bb7279f7897b87bb6854b783c60e80311ae3079"
    );
}

#[test]
fn shared_keys_are_derived_from_the_agreement_for_the_purpose() {
    let (secret, _) = keypair_of([5; 32]);
    let (_, public) = keypair_of([9; 32]);
    let material = x25519_dalek::x25519(secret, public);
    let mut expected = [0_u8; 32];
    hkdf::Hkdf::<sha2::Sha256>::new(None, &material)
        .expand(b"span-text-v3", &mut expected)
        .unwrap();
    let derived = shared_key(&secret, &encode_hex(&public), b"span-text-v3").unwrap();
    assert_eq!(derived, expected);
    assert_ne!(derived, material);
}

#[test]
fn plaintext_has_to_be_text() {
    assert_eq!(read_plaintext(Some(b"ok".to_vec())).unwrap(), "ok");
    let error = read_plaintext(Some(vec![0xff])).unwrap_err();
    assert_eq!((error.kind, error.message), (ErrorKind::InvalidData, "plaintext is not utf-8"));
    let error = read_plaintext(None).unwrap_err();
    assert_eq!((error.kind, error.message), (ErrorKind::InvalidData, "decrypt failed"));
}

#[test]
fn hexadecimal_reads_both_cases_and_writes_lower() {
    assert_eq!(encode_hex(&[0x0f, 0xA0]), "0fa0");
    assert_eq!(decode_hex("0FaB"), Some(vec![0x0f, 0xab]));
    assert_eq!(decode_hex("0"), None);
    assert_eq!(decode_hex("0g"), None);
    assert_eq!(decode_hex(""), Some(Vec::new()));
}

#[test]
fn waiting_for_a_connection_goes_on_while_nobody_connects() {
    assert_eq!(accept_step(Ok(())), AcceptAction::Read);
    assert_eq!(accept_step(Err(Error::from(ErrorKind::WouldBlock))), AcceptAction::Pause);
    assert_eq!(accept_step(Err(Error::from(ErrorKind::Other))), AcceptAction::Stop);
}
