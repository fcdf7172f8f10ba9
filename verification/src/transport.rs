//! Sealed clipboard text on its way between two devices, and the line that
//! carries it.

use vstd::prelude::*;
use vstd::utf8::{
    decode_utf8, encode_utf8, encode_utf8_decode_utf8, encode_utf8_valid_utf8, valid_utf8,
};

use crate::crypto::{
    array_of, chacha_opened, chacha_sealed, hkdf_sha256, key_bytes, message_key, open_message,
    random_nonce, seal_message, shared_key, x25519_public, x25519_shared, MAX_SEALED_BYTES,
    NONCE_BYTES, TAG_BYTES,
};
use crate::device::DeviceId;
use crate::error::{Error, ErrorKind, Verdict};
use crate::hex::{decode_hex, encode_hex, hex_decoded, hex_is_plain, hex_reads_back, hex_text};
use crate::text::{
    free_of, join, join_free_of, joined, same, split, split_at_char, split_joined, texts, trim_end,
    trim_end_keeps, trimmed_end, utf8_text, white_space,
};

verus! {

/// The TCP port on which devices receive packets.
pub const TEXT_PORT: u16 = 46793;

/// What a packet with clipboard text starts with.
pub const MAGIC: &'static str = "SPAN_TEXT_V3";

/// What a packet that accepts a pairing starts with.
pub const PAIRING_MAGIC: &'static str = "SPAN_PAIR_ACCEPT_V1";

/// The most ciphertext that a packet carries: 64 KiB of text, and room for the
/// tag.
pub const MAX_CIPHERTEXT_BYTES: usize = 65568;

/// The purpose for which the keys of packets are derived.
pub const KEY_INFO: &'static str = "span-text-v3";

/// What a packet is for.
#[derive(Clone, Copy, Debug, PartialEq, Eq, Structural)]
pub enum EncryptedPacketKind {
    /// Clipboard text.
    Text,
    /// The sender has accepted the receiver.
    PairingAccept,
}

/// A sealed text and who it is from.
#[derive(Debug, PartialEq, Eq)]
pub struct EncryptedTextPacket {
    pub kind: EncryptedPacketKind,
    pub from: DeviceId,
    pub nonce: [u8; NONCE_BYTES],
    pub ciphertext: Vec<u8>,
}

/// What a packet says, as mathematical values.
#[verifier::ext_equal]
pub struct Packet {
    pub kind: EncryptedPacketKind,
    pub from: Seq<char>,
    pub nonce: Seq<u8>,
    pub ciphertext: Seq<u8>,
}

impl View for EncryptedTextPacket {
    type V = Packet;

    open spec fn view(&self) -> Packet {
        Packet {
            kind: self.kind,
            from: self.from@,
            nonce: self.nonce@,
            ciphertext: self.ciphertext@,
        }
    }
}

impl Clone for EncryptedTextPacket {
    fn clone(&self) -> (res: EncryptedTextPacket)
        ensures
            res@ == self@,
    {
        let mut ciphertext: Vec<u8> = Vec::new();
        ciphertext.extend_from_slice(self.ciphertext.as_slice());
        assert(ciphertext@ =~= self.ciphertext@);
        EncryptedTextPacket {
            kind: self.kind,
            from: self.from.clone(),
            nonce: self.nonce,
            ciphertext,
        }
    }
}

/// The key for packets between the owner of a private key and the owner of a
/// public key in hexadecimal.
pub open spec fn packet_key(private: Seq<u8>, public: Seq<char>) -> Verdict<Seq<u8>> {
    message_key(private, public, encode_utf8(KEY_INFO@))
}

/// The packet that carries a text under the nonce that the source of
/// randomness gave, if it gave one.
pub open spec fn sealed_packet(
    kind: EncryptedPacketKind,
    from: Seq<char>,
    private: Seq<u8>,
    public: Seq<char>,
    nonce: Option<[u8; NONCE_BYTES]>,
    text: Seq<char>,
) -> Verdict<Packet> {
    match (packet_key(private, public), nonce) {
        (Verdict::Fails(error, message), _) => Verdict::Fails(error, message),
        (Verdict::Done(_), None) => Verdict::Fails(ErrorKind::Other, "no randomness"@),
        (Verdict::Done(key), Some(nonce)) => if encode_utf8(text).len() > MAX_SEALED_BYTES {
            Verdict::Fails(ErrorKind::Other, "encrypt failed"@)
        } else {
            Verdict::Done(
                Packet {
                    kind,
                    from,
                    nonce: nonce@,
                    ciphertext: chacha_sealed(key, nonce@, encode_utf8(text)),
                },
            )
        },
    }
}

/// Whether a result is the packet that carries a text under a nonce, or the
/// failure to seal it.
pub open spec fn seals(
    res: Result<EncryptedTextPacket, Error>,
    kind: EncryptedPacketKind,
    from: Seq<char>,
    private: Seq<u8>,
    public: Seq<char>,
    nonce: Option<[u8; NONCE_BYTES]>,
    text: Seq<char>,
) -> bool {
    match res {
        Ok(packet) => sealed_packet(kind, from, private, public, nonce, text) == Verdict::Done(
            packet@,
        ),
        Err(error) => sealed_packet(kind, from, private, public, nonce, text) == Verdict::<
            Packet,
        >::Fails(error.kind, error.message@),
    }
}

/// The text in a packet, for the owner of a private key from the owner of a
/// public key.
pub open spec fn opened_packet(packet: Packet, private: Seq<u8>, public: Seq<char>) -> Verdict<
    Seq<char>,
> {
    match packet_key(private, public) {
        Verdict::Done(key) => if packet.ciphertext.len() > MAX_SEALED_BYTES + TAG_BYTES {
            Verdict::Fails(ErrorKind::InvalidData, "decrypt failed"@)
        } else {
            match chacha_opened(key, packet.nonce, packet.ciphertext) {
                Some(plain) => if valid_utf8(plain) {
                    Verdict::Done(decode_utf8(plain))
                } else {
                    Verdict::Fails(ErrorKind::InvalidData, "plaintext is not utf-8"@)
                },
                None => Verdict::Fails(ErrorKind::InvalidData, "decrypt failed"@),
            }
        },
        Verdict::Fails(error, message) => Verdict::Fails(error, message),
    }
}

/// Whether the receiver gets the text: whoever owns the secret behind the
/// public key that the packet was sealed for opens it to the text with the
/// sender's public key.
pub open spec fn reaches_receiver(
    packet: Packet,
    private: Seq<u8>,
    public: Seq<char>,
    text: Seq<char>,
) -> bool {
    forall|receiver: Seq<u8>, sender_public: Seq<char>|
        receiver.len() == 32 && key_bytes(public) == Some(x25519_public(receiver)) && key_bytes(
            sender_public,
        ) == Some(x25519_public(private)) ==> #[trigger] opened_packet(
            packet,
            receiver,
            sender_public,
        ) == Verdict::Done(text)
}

/// Whether the line of a packet gives the packet back, in one line.
pub open spec fn survives_the_wire(packet: Packet) -> bool {
    &&& packet_in(packet_line(packet).push('\n')) == Verdict::Done(packet)
    &&& free_of(packet_line(packet), '\n')
}

/// Seals a text under the nonce that the source of randomness gave, if it gave
/// one. The receiver opens the packet to the text; and the packet's line
/// carries it, where the text is not too long and the identifier of the sender
/// fits into a line.
pub fn seal_text(
    kind: EncryptedPacketKind,
    from: &DeviceId,
    sender_private_key: &[u8; 32],
    recipient_public_key: &str,
    nonce: Option<[u8; NONCE_BYTES]>,
    text: &str,
) -> (res: Result<EncryptedTextPacket, Error>)
    ensures
        seals(
            res,
            kind,
            from@,
            sender_private_key@,
            recipient_public_key@,
            nonce,
            text@,
        ),
        res matches Ok(packet) ==> reaches_receiver(
            packet@,
            sender_private_key@,
            recipient_public_key@,
            text@,
        ),
        res matches Ok(packet) ==> encode_utf8(text@).len() + TAG_BYTES <= MAX_CIPHERTEXT_BYTES
            && free_of(from@, '\t') && free_of(from@, '\n') ==> survives_the_wire(packet@),
{
    let info = KEY_INFO.as_bytes();
    let key = match shared_key(sender_private_key, recipient_public_key, info) {
        Ok(key) => key,
        Err(error) => {
            return Err(error);
        },
    };
    let nonce = match nonce {
        Some(nonce) => nonce,
        None => {
            return Err(Error::new(ErrorKind::Other, "no randomness"));
        },
    };
    let plain = text.as_bytes();
    let ciphertext = match seal_message(&key, &nonce, plain) {
        Some(ciphertext) => ciphertext,
        None => {
            return Err(Error::new(ErrorKind::Other, "encrypt failed"));
        },
    };
    let sender = from.clone();
    let packet = EncryptedTextPacket { kind, from: sender, nonce, ciphertext };
    proof {
        let private = sender_private_key@;
        let public = recipient_public_key@;
        encode_utf8_valid_utf8(text@);
        encode_utf8_decode_utf8(text@);
        assert forall|receiver: Seq<u8>, sender_public: Seq<char>|
            receiver.len() == 32 && key_bytes(public) == Some(x25519_public(receiver))
                && key_bytes(sender_public) == Some(
                x25519_public(private),
            ) implies #[trigger] opened_packet(packet@, receiver, sender_public) == Verdict::Done(
            text@,
        ) by {
            assert(packet_key(receiver, sender_public) == Verdict::Done(key@));
        }
        if encode_utf8(text@).len() + TAG_BYTES <= MAX_CIPHERTEXT_BYTES && free_of(from@, '\t')
            && free_of(from@, '\n') {
            packet_reads_back(packet@);
            packet_is_one_line(packet@);
        }
    }
    Ok(packet)
}

/// Seals clipboard text for the owner of a public key, under a random nonce.
pub fn encrypt_text(
    from: &DeviceId,
    sender_private_key: &[u8; 32],
    recipient_public_key: &str,
    text: &str,
) -> (res: Result<EncryptedTextPacket, Error>)
    ensures
        exists|nonce: Option<[u8; NONCE_BYTES]>| #[trigger]
            seals(
                res,
                EncryptedPacketKind::Text,
                from@,
                sender_private_key@,
                recipient_public_key@,
                nonce,
                text@,
            ),
        res matches Ok(packet) ==> reaches_receiver(
            packet@,
            sender_private_key@,
            recipient_public_key@,
            text@,
        ),
        res matches Ok(packet) ==> encode_utf8(text@).len() + TAG_BYTES <= MAX_CIPHERTEXT_BYTES
            && free_of(from@, '\t') && free_of(from@, '\n') ==> survives_the_wire(packet@),
{
    seal_text(
        EncryptedPacketKind::Text,
        from,
        sender_private_key,
        recipient_public_key,
        random_nonce(),
        text,
    )
}

/// Seals the proof that the sender has accepted the receiver, under a random
/// nonce.
pub fn encrypt_pairing_accept(
    from: &DeviceId,
    sender_private_key: &[u8; 32],
    recipient_public_key: &str,
    proof_text: &str,
) -> (res: Result<EncryptedTextPacket, Error>)
    ensures
        exists|nonce: Option<[u8; NONCE_BYTES]>| #[trigger]
            seals(
                res,
                EncryptedPacketKind::PairingAccept,
                from@,
                sender_private_key@,
                recipient_public_key@,
                nonce,
                proof_text@,
            ),
        res matches Ok(packet) ==> reaches_receiver(
            packet@,
            sender_private_key@,
            recipient_public_key@,
            proof_text@,
        ),
        res matches Ok(packet) ==> encode_utf8(proof_text@).len() + TAG_BYTES <= MAX_CIPHERTEXT_BYTES
            && free_of(from@, '\t') && free_of(from@, '\n') ==> survives_the_wire(packet@),
{
    seal_text(
        EncryptedPacketKind::PairingAccept,
        from,
        sender_private_key,
        recipient_public_key,
        random_nonce(),
        proof_text,
    )
}

/// The text in a packet, for the owner of a private key from the owner of a
/// public key in hexadecimal.
pub fn decrypt_text(
    packet: &EncryptedTextPacket,
    receiver_private_key: &[u8; 32],
    sender_public_key: &str,
) -> (res: Result<String, Error>)
    ensures
        match res {
            Ok(text) => opened_packet(packet@, receiver_private_key@, sender_public_key@)
                == Verdict::Done(text@),
            Err(error) => opened_packet(packet@, receiver_private_key@, sender_public_key@)
                == Verdict::<Seq<char>>::Fails(error.kind, error.message@),
        },
{
    let info = KEY_INFO.as_bytes();
    let key = match shared_key(receiver_private_key, sender_public_key, info) {
        Ok(key) => key,
        Err(error) => {
            return Err(error);
        },
    };
    let opened = open_message(&key, &packet.nonce, packet.ciphertext.as_slice());
    read_plaintext(opened)
}

/// The text of an opened packet, given what opening it gave.
pub fn read_plaintext(opened: Option<Vec<u8>>) -> (res: Result<String, Error>)
    ensures
        match opened {
            Some(plain) => if valid_utf8(plain@) {
                res matches Ok(text) && text@ == decode_utf8(plain@)
            } else {
                res matches Err(error) && error.is(ErrorKind::InvalidData, "plaintext is not utf-8")
            },
            None => res matches Err(error) && error.is(ErrorKind::InvalidData, "decrypt failed"),
        },
{
    match opened {
        Some(plain) => match utf8_text(plain) {
            Some(text) => Ok(text),
            None => Err(Error::new(ErrorKind::InvalidData, "plaintext is not utf-8")),
        },
        None => Err(Error::new(ErrorKind::InvalidData, "decrypt failed")),
    }
}

/// What a packet of that kind starts with.
pub open spec fn magic_of(kind: EncryptedPacketKind) -> Seq<char> {
    match kind {
        EncryptedPacketKind::Text => MAGIC@,
        EncryptedPacketKind::PairingAccept => PAIRING_MAGIC@,
    }
}

/// The fields of a packet's line: kind, sender, nonce and ciphertext.
pub open spec fn packet_fields(packet: Packet) -> Seq<Seq<char>> {
    seq![magic_of(packet.kind), packet.from, hex_text(packet.nonce), hex_text(packet.ciphertext)]
}

/// The line that carries a packet, without its ending.
pub open spec fn packet_line(packet: Packet) -> Seq<char> {
    join(packet_fields(packet), "\t"@)
}

/// The line that carries a packet, unless its ciphertext is too large.
pub fn write_packet(packet: &EncryptedTextPacket) -> (res: Result<String, Error>)
    ensures
        match res {
            Ok(line) => packet@.ciphertext.len() <= MAX_CIPHERTEXT_BYTES && line@ == packet_line(
                packet@,
            ).push('\n'),
            Err(error) => packet@.ciphertext.len() > MAX_CIPHERTEXT_BYTES && error.is(
                ErrorKind::InvalidInput,
                "ciphertext too large",
            ),
        },
{
    if packet.ciphertext.len() > MAX_CIPHERTEXT_BYTES {
        return Err(Error::new(ErrorKind::InvalidInput, "ciphertext too large"));
    }
    let mut fields: Vec<String> = Vec::new();
    match packet.kind {
        EncryptedPacketKind::Text => fields.push(MAGIC.to_owned()),
        EncryptedPacketKind::PairingAccept => fields.push(PAIRING_MAGIC.to_owned()),
    }
    fields.push(packet.from.as_str().to_owned());
    fields.push(encode_hex(packet.nonce.as_slice()));
    fields.push(encode_hex(packet.ciphertext.as_slice()));
    assert(texts(fields@) =~= packet_fields(packet@));
    let mut line = joined(&fields, "\t");
    line.push('\n');
    Ok(line)
}

/// The packet that a line carries. White space at the end of the line does not
/// count.
pub open spec fn packet_in(header: Seq<char>) -> Verdict<Packet> {
    packet_of(split(trim_end(header), '\t'))
}

/// The packet that fields give. Those behind the fourth do not count.
pub open spec fn packet_of(fields: Seq<Seq<char>>) -> Verdict<Packet> {
    let nonce = hex_decoded(fields[2]);
    let ciphertext = hex_decoded(fields[3]);
    if fields[0] != MAGIC@ && fields[0] != PAIRING_MAGIC@ {
        Verdict::Fails(ErrorKind::InvalidData, "bad magic"@)
    } else if fields.len() < 2 || fields[1].len() == 0 {
        Verdict::Fails(ErrorKind::InvalidData, "bad device id"@)
    } else if fields.len() < 3 || nonce is None || nonce->0.len() != NONCE_BYTES {
        Verdict::Fails(ErrorKind::InvalidData, "bad nonce"@)
    } else if fields.len() < 4 || ciphertext is None {
        Verdict::Fails(ErrorKind::InvalidData, "bad ciphertext"@)
    } else if ciphertext->0.len() > MAX_CIPHERTEXT_BYTES {
        Verdict::Fails(ErrorKind::InvalidData, "ciphertext too large"@)
    } else {
        Verdict::Done(
            Packet {
                kind: if fields[0] == MAGIC@ {
                    EncryptedPacketKind::Text
                } else {
                    EncryptedPacketKind::PairingAccept
                },
                from: fields[1],
                nonce: nonce->0,
                ciphertext: ciphertext->0,
            },
        )
    }
}

/// The nonce that a field holds in hexadecimal.
pub fn parse_nonce(value: &str) -> (res: Option<[u8; NONCE_BYTES]>)
    ensures
        match res {
            Some(nonce) => hex_decoded(value@) == Some(nonce@) && nonce@.len() == NONCE_BYTES,
            None => hex_decoded(value@) is None || hex_decoded(value@)->0.len() != NONCE_BYTES,
        },
{
    match decode_hex(value) {
        Some(bytes) => if bytes.len() == NONCE_BYTES {
            Some(array_of::<NONCE_BYTES>(&bytes, [0u8; NONCE_BYTES]))
        } else {
            None
        },
        None => None,
    }
}

/// The packet that a line carries.
pub fn read_packet(header: &str) -> (res: Result<EncryptedTextPacket, Error>)
    ensures
        match res {
            Ok(packet) => packet_in(header@) == Verdict::Done(packet@),
            Err(error) => packet_in(header@) == Verdict::<Packet>::Fails(
                error.kind,
                error.message@,
            ),
        },
{
    let line = trimmed_end(header);
    let fields = split_at_char(line.as_str(), '\t');
    let ghost parts = split(trim_end(header@), '\t');
    proof {
        crate::text::split_nonempty(trim_end(header@), '\t');
    }
    assert(parts.len() == fields.len());
    assert(forall|i: int| 0 <= i < fields.len() ==> parts[i] == (#[trigger] fields[i])@);
    let kind = if same(fields[0].as_str(), MAGIC) {
        EncryptedPacketKind::Text
    } else if same(fields[0].as_str(), PAIRING_MAGIC) {
        EncryptedPacketKind::PairingAccept
    } else {
        return Err(Error::new(ErrorKind::InvalidData, "bad magic"));
    };
    let id = if fields.len() > 1 {
        DeviceId::new(fields[1].as_str())
    } else {
        None
    };
    let from = match id {
        Some(from) => from,
        None => {
            return Err(Error::new(ErrorKind::InvalidData, "bad device id"));
        },
    };
    let parsed = if fields.len() > 2 {
        parse_nonce(fields[2].as_str())
    } else {
        None
    };
    let nonce = match parsed {
        Some(nonce) => nonce,
        None => {
            return Err(Error::new(ErrorKind::InvalidData, "bad nonce"));
        },
    };
    let decoded = if fields.len() > 3 {
        decode_hex(fields[3].as_str())
    } else {
        None
    };
    let ciphertext = match decoded {
        Some(ciphertext) => ciphertext,
        None => {
            return Err(Error::new(ErrorKind::InvalidData, "bad ciphertext"));
        },
    };
    if ciphertext.len() > MAX_CIPHERTEXT_BYTES {
        return Err(Error::new(ErrorKind::InvalidData, "ciphertext too large"));
    }
    Ok(EncryptedTextPacket { kind, from, nonce, ciphertext })
}

/// What follows while waiting for one connection.
#[derive(Clone, Copy, Debug, PartialEq, Eq, Structural)]
pub enum AcceptAction {
    /// Read the packet.
    Read,
    /// Nobody has connected yet: pause, and ask again.
    Pause,
    /// Stop, with the failure.
    Stop,
}

/// What follows while waiting for one connection, given what asking for it
/// gave.
pub fn accept_step(accepted: Result<(), Error>) -> (res: AcceptAction)
    ensures
        match accepted {
            Ok(_) => res == AcceptAction::Read,
            Err(error) => if error.kind == ErrorKind::WouldBlock {
                res == AcceptAction::Pause
            } else {
                res == AcceptAction::Stop
            },
        },
{
    match accepted {
        Ok(_) => AcceptAction::Read,
        Err(error) => if error.kind == ErrorKind::WouldBlock {
            AcceptAction::Pause
        } else {
            AcceptAction::Stop
        },
    }
}

/// What went wrong with one received packet.
#[derive(Debug, PartialEq, Eq)]
pub enum PacketFault<E> {
    /// The packet came, and could not be processed.
    Processing(E),
    /// No packet came.
    Receive(E),
}

/// Hands one received packet on. Failures of authentication, of the store or
/// of the clipboard are scoped to one packet: they are reported and do not end
/// the reception, so there is no other outcome than to go on.
pub fn dispatch_received_packet<E, F: Fn(EncryptedTextPacket) -> Result<(), E>>(
    received: Result<EncryptedTextPacket, E>,
    on_packet: &F,
) -> (res: Option<PacketFault<E>>)
    requires
        received matches Ok(packet) ==> call_requires(on_packet, (packet,)),
    ensures
        match received {
            Ok(packet) => exists|outcome: Result<(), E>|
                #[trigger] call_ensures(on_packet, (packet,), outcome) && res == (match outcome {
                    Ok(_) => None,
                    Err(error) => Some(PacketFault::Processing(error)),
                }),
            Err(error) => res == Some(PacketFault::Receive(error)),
        },
{
    match received {
        Ok(packet) => match on_packet(packet) {
            Ok(_) => None,
            Err(error) => Some(PacketFault::Processing(error)),
        },
        Err(error) => Some(PacketFault::Receive(error)),
    }
}

/// The two ways in which a line starts.
proof fn magics_are_plain(kind: EncryptedPacketKind)
    ensures
        free_of(magic_of(kind), '\t'),
        free_of(magic_of(kind), '\n'),
        MAGIC@ != PAIRING_MAGIC@,
{
    reveal_strlit("SPAN_TEXT_V3");
    reveal_strlit("SPAN_PAIR_ACCEPT_V1");
    assert(MAGIC@.len() == 12);
    assert(PAIRING_MAGIC@.len() == 19);
}

/// What is written in hexadecimal is no white space, and reads back.
proof fn hex_field(bytes: Seq<u8>)
    ensures
        hex_decoded(hex_text(bytes)) == Some(bytes),
        free_of(hex_text(bytes), '\t'),
        free_of(hex_text(bytes), '\n'),
        bytes.len() > 0 ==> hex_text(bytes).len() > 0 && !white_space(hex_text(bytes).last()),
{
    hex_reads_back(bytes);
    hex_is_plain(hex_text(bytes));
    let text = hex_text(bytes);
    assert forall|k: int| 0 <= k < text.len() implies #[trigger] text[k] != '\t' && text[k]
        != '\n' by {
        assert(!white_space(text[k]));
    }
}

/// What the fields of a packet hold in hexadecimal reads back.
proof fn fields_in_hexadecimal(packet: Packet)
    ensures
        hex_decoded(hex_text(packet.nonce)) == Some(packet.nonce),
        hex_decoded(hex_text(packet.ciphertext)) == Some(packet.ciphertext),
        free_of(hex_text(packet.nonce), '\t'),
        free_of(hex_text(packet.ciphertext), '\t'),
        packet.ciphertext.len() > 0 ==> hex_text(packet.ciphertext).len() > 0 && !white_space(
            hex_text(packet.ciphertext).last(),
        ),
{
    hex_field(packet.nonce);
    hex_field(packet.ciphertext);
}

/// The line of a packet splits into its fields, and has nothing to trim.
proof fn packet_line_splits(packet: Packet)
    requires
        packet.ciphertext.len() > 0,
        free_of(packet.from, '\t'),
    ensures
        split(packet_line(packet), '\t') == packet_fields(packet),
        trim_end(packet_line(packet).push('\n')) == packet_line(packet),
{
    fields_in_hexadecimal(packet);
    four_fields_stay_apart(
        packet.kind,
        packet.from,
        hex_text(packet.nonce),
        hex_text(packet.ciphertext),
    );
}

/// The fields of a packet give the packet.
proof fn packet_of_its_fields(packet: Packet)
    requires
        packet.from.len() > 0,
        packet.nonce.len() == NONCE_BYTES,
        packet.ciphertext.len() <= MAX_CIPHERTEXT_BYTES,
    ensures
        packet_of(packet_fields(packet)) == Verdict::Done(packet),
{
    fields_in_hexadecimal(packet);
    four_fields_are_read(
        packet.kind,
        packet.from,
        hex_text(packet.nonce),
        hex_text(packet.ciphertext),
        packet.nonce,
        packet.ciphertext,
    );
}

/// A line of four fields splits into them, and has nothing to trim.
proof fn four_fields_stay_apart(
    kind: EncryptedPacketKind,
    from: Seq<char>,
    nonce: Seq<char>,
    ciphertext: Seq<char>,
)
    requires
        free_of(from, '\t'),
        free_of(nonce, '\t'),
        free_of(ciphertext, '\t'),
        ciphertext.len() > 0,
        !white_space(ciphertext.last()),
    ensures
        ({
            let fields = seq![magic_of(kind), from, nonce, ciphertext];
            let line = join(fields, "\t"@);
            split(line, '\t') == fields && trim_end(line.push('\n')) == line
        }),
{
    magics_are_plain(kind);
    let fields = seq![magic_of(kind), from, nonce, ciphertext];
    assert forall|i: int| 0 <= i < fields.len() implies free_of(#[trigger] fields[i], '\t') by {
        assert(i == 0 || i == 1 || i == 2 || i == 3);
    }
    assert("\t"@ =~= seq!['\t']) by {
        reveal_strlit("\t");
    }
    assert(fields.last() == ciphertext);
    line_of_fields(fields);
}

/// Four good fields give the packet that they name.
proof fn four_fields_are_read(
    kind: EncryptedPacketKind,
    from: Seq<char>,
    nonce: Seq<char>,
    ciphertext: Seq<char>,
    nonce_bytes: Seq<u8>,
    bytes: Seq<u8>,
)
    requires
        from.len() > 0,
        hex_decoded(nonce) == Some(nonce_bytes),
        nonce_bytes.len() == NONCE_BYTES,
        hex_decoded(ciphertext) == Some(bytes),
        bytes.len() <= MAX_CIPHERTEXT_BYTES,
    ensures
        packet_of(seq![magic_of(kind), from, nonce, ciphertext]) == Verdict::Done(
            Packet { kind, from, nonce: nonce_bytes, ciphertext: bytes },
        ),
{
    magics_are_plain(kind);
    let fields = seq![magic_of(kind), from, nonce, ciphertext];
    assert(fields.len() == 4);
    assert(fields[0] == magic_of(kind) && fields[1] == from);
    assert(fields[2] == nonce && fields[3] == ciphertext);
}

/// A packet reads back from its line as it was written, unless the ciphertext
/// is empty, or the sender's identifier holds a tab.
pub proof fn packet_reads_back(packet: Packet)
    requires
        packet.from.len() > 0,
        packet.nonce.len() == NONCE_BYTES,
        packet.ciphertext.len() <= MAX_CIPHERTEXT_BYTES,
        packet.ciphertext.len() > 0,
        free_of(packet.from, '\t'),
    ensures
        packet_in(packet_line(packet).push('\n')) == Verdict::Done(packet),
{
    packet_line_splits(packet);
    packet_of_its_fields(packet);
}

/// The line of a packet is one line: reading up to the first line feed gives
/// all of it, unless the sender's identifier holds a line feed.
pub proof fn packet_is_one_line(packet: Packet)
    requires
        free_of(packet.from, '\n'),
    ensures
        free_of(packet_line(packet), '\n'),
{
    let fields = packet_fields(packet);
    magics_are_plain(packet.kind);
    hex_field(packet.nonce);
    hex_field(packet.ciphertext);
    assert forall|i: int| 0 <= i < fields.len() implies free_of(#[trigger] fields[i], '\n') by {
    }
    assert(free_of("\t"@, '\n')) by {
        reveal_strlit("\t");
    }
    join_free_of(fields, "\t"@, '\n');
}

/// The two kinds of packets differ on the wire: a line says by its first field
/// which kind it carries, and the first fields are not the same.
pub proof fn kinds_differ_on_the_wire(header: Seq<char>)
    ensures
        packet_in(header) matches Verdict::Done(packet) ==> split(trim_end(header), '\t')[0]
            == magic_of(packet.kind),
        magic_of(EncryptedPacketKind::Text) != magic_of(EncryptedPacketKind::PairingAccept),
{
    magics_are_plain(EncryptedPacketKind::Text);
}

/// A line is refused whose packet has a nonce of another length, or more than
/// 65568 bytes of ciphertext, and any line that starts with another first field
/// than a packet does.
pub proof fn malformed_packet_is_refused(packet: Packet, header: Seq<char>)
    requires
        packet.from.len() > 0,
        packet.ciphertext.len() > 0,
        free_of(packet.from, '\t'),
    ensures
        packet.nonce.len() != 12 ==> packet_in(packet_line(packet).push('\n')) == Verdict::<
            Packet,
        >::Fails(ErrorKind::InvalidData, "bad nonce"@),
        packet.nonce.len() == 12 && packet.ciphertext.len() > 65568 ==> packet_in(
            packet_line(packet).push('\n'),
        ) == Verdict::<Packet>::Fails(ErrorKind::InvalidData, "ciphertext too large"@),
        packet.nonce.len() == 12 && packet.ciphertext.len() <= 65568 ==> packet_in(
            packet_line(packet).push('\n'),
        ) == Verdict::Done(packet),
        split(trim_end(header), '\t')[0] != "SPAN_TEXT_V3"@ && split(trim_end(header), '\t')[0]
            != "SPAN_PAIR_ACCEPT_V1"@ ==> packet_in(header) == Verdict::<Packet>::Fails(
            ErrorKind::InvalidData,
            "bad magic"@,
        ),
{
    fields_in_hexadecimal(packet);
    packet_is_read_strictly(
        packet.kind,
        packet.from,
        hex_text(packet.nonce),
        hex_text(packet.ciphertext),
    );
}

/// A packet gives its text where the cipher opens it to text, and fails with a
/// reason where the key is no key, where it does not open, and where what it
/// opens to is no text.
pub proof fn opening_says_why_it_fails(packet: Packet, private: Seq<u8>, public: Seq<char>)
    requires
        packet.ciphertext.len() <= MAX_CIPHERTEXT_BYTES,
    ensures
        key_bytes(public) is None ==> opened_packet(packet, private, public) is Fails,
        packet_key(private, public) matches Verdict::Done(key) ==> match chacha_opened(
            key,
            packet.nonce,
            packet.ciphertext,
        ) {
            None => opened_packet(packet, private, public) == Verdict::<Seq<char>>::Fails(
                ErrorKind::InvalidData,
                "decrypt failed"@,
            ),
            Some(plain) => if valid_utf8(plain) {
                opened_packet(packet, private, public) == Verdict::Done(decode_utf8(plain))
            } else {
                opened_packet(packet, private, public) == Verdict::<Seq<char>>::Fails(
                    ErrorKind::InvalidData,
                    "plaintext is not utf-8"@,
                )
            },
        },
{
}

/// A packet is sealed and opened under the key that HKDF-SHA256 derives, for the
/// purpose "span-text-v3", from what X25519 gives for the one side's private key
/// and the other side's public key.
pub proof fn packets_are_sealed_under_the_derived_key(private: Seq<u8>, public: Seq<char>)
    ensures
        match hex_decoded(public) {
            Some(bytes) => if bytes.len() == 32 {
                packet_key(private, public) == Verdict::Done(
                    hkdf_sha256(x25519_shared(private, bytes), encode_utf8("span-text-v3"@)),
                )
            } else {
                packet_key(private, public) is Fails
            },
            None => packet_key(private, public) is Fails,
        },
{
}

/// A sealed packet says who sent it and what it is for, carries the nonce that
/// was drawn, and its ciphertext is the text, in UTF-8, under that nonce and the
/// derived key.
pub proof fn packet_carries_the_text(
    kind: EncryptedPacketKind,
    from: Seq<char>,
    private: Seq<u8>,
    public: Seq<char>,
    nonce: [u8; NONCE_BYTES],
    text: Seq<char>,
    key: Seq<u8>,
)
    requires
        packet_key(private, public) == Verdict::Done(key),
        encode_utf8(text).len() <= 65536,
    ensures
        sealed_packet(kind, from, private, public, Some(nonce), text) == Verdict::Done(
            Packet {
                kind,
                from,
                nonce: nonce@,
                ciphertext: chacha_sealed(key, nonce@, encode_utf8(text)),
            },
        ),
{
}

/// A packet that was sealed is the one that carries the text: its sender, its
/// kind and its nonce are those that were given, and its ciphertext is the text
/// under the derived key. Text of up to 65536 bytes is always sealed where there
/// is a nonce and the key is one.
pub proof fn sealed_packet_is_as_ordered(
    res: Result<EncryptedTextPacket, Error>,
    kind: EncryptedPacketKind,
    from: Seq<char>,
    private: Seq<u8>,
    public: Seq<char>,
    nonce: [u8; NONCE_BYTES],
    text: Seq<char>,
    key: Seq<u8>,
)
    requires
        seals(res, kind, from, private, public, Some(nonce), text),
        packet_key(private, public) == Verdict::Done(key),
        encode_utf8(text).len() <= 65536,
    ensures
        res is Ok,
        res->Ok_0.kind == kind,
        res->Ok_0.from@ == from,
        res->Ok_0.nonce@ == nonce@,
        res->Ok_0.ciphertext@ == chacha_sealed(key, nonce@, encode_utf8(text)),
{
}

/// A line gives a packet exactly where its sender is named, its third field is a
/// nonce and its fourth a ciphertext that is not too long, both in hexadecimal;
/// else it says which of them is bad.
pub proof fn packet_is_read_strictly(
    kind: EncryptedPacketKind,
    from: Seq<char>,
    nonce: Seq<char>,
    ciphertext: Seq<char>,
)
    requires
        free_of(from, '\t'),
        free_of(nonce, '\t'),
        free_of(ciphertext, '\t'),
        ciphertext.len() > 0,
        !white_space(ciphertext.last()),
    ensures
        ({
            let first = match kind {
                EncryptedPacketKind::Text => "SPAN_TEXT_V3"@,
                EncryptedPacketKind::PairingAccept => "SPAN_PAIR_ACCEPT_V1"@,
            };
            let read = packet_in(join(seq![first, from, nonce, ciphertext], "\t"@).push('\n'));
            let nonce_is_good = hex_decoded(nonce) is Some && hex_decoded(nonce)->0.len() == 12;
            if from.len() == 0 {
                read == Verdict::<Packet>::Fails(ErrorKind::InvalidData, "bad device id"@)
            } else if !nonce_is_good {
                read == Verdict::<Packet>::Fails(ErrorKind::InvalidData, "bad nonce"@)
            } else if hex_decoded(ciphertext) is None {
                read == Verdict::<Packet>::Fails(ErrorKind::InvalidData, "bad ciphertext"@)
            } else if hex_decoded(ciphertext)->0.len() > 65568 {
                read == Verdict::<Packet>::Fails(ErrorKind::InvalidData, "ciphertext too large"@)
            } else {
                read == Verdict::Done(
                    Packet {
                        kind,
                        from,
                        nonce: hex_decoded(nonce)->0,
                        ciphertext: hex_decoded(ciphertext)->0,
                    },
                )
            }
        }),
{
    magics_are_plain(kind);
    four_fields_stay_apart(kind, from, nonce, ciphertext);
    let first = magic_of(kind);
    let fields = seq![first, from, nonce, ciphertext];
    assert(fields[0] == first && fields[1] == from);
    assert(fields[2] == nonce && fields[3] == ciphertext);
}

/// A line that ends before a field says which one is missing.
pub proof fn short_packet_is_refused(kind: EncryptedPacketKind, from: Seq<char>, nonce: Seq<char>)
    requires
        from.len() > 0,
        free_of(from, '\t'),
        free_of(nonce, '\t'),
        !white_space(from.last()),
        nonce.len() > 0,
        !white_space(nonce.last()),
        hex_decoded(nonce) is Some,
        hex_decoded(nonce)->0.len() == 12,
    ensures
        packet_in(magic_of(kind).push('\n')) == Verdict::<Packet>::Fails(
            ErrorKind::InvalidData,
            "bad device id"@,
        ),
        packet_in(join(seq![magic_of(kind), from], "\t"@).push('\n')) == Verdict::<Packet>::Fails(
            ErrorKind::InvalidData,
            "bad nonce"@,
        ),
        packet_in(join(seq![magic_of(kind), from, nonce], "\t"@).push('\n')) == Verdict::<
            Packet,
        >::Fails(ErrorKind::InvalidData, "bad ciphertext"@),
{
    magics_are_plain(kind);
    let first = magic_of(kind);
    assert("\t"@ =~= seq!['\t']) by {
        reveal_strlit("\t");
    }
    assert(first.len() > 0 && !white_space(first.last())) by {
        reveal_strlit("SPAN_TEXT_V3");
        reveal_strlit("SPAN_PAIR_ACCEPT_V1");
    }
    let one = seq![first];
    let two = seq![first, from];
    let three = seq![first, from, nonce];
    assert(join(one, seq!['\t']) == first);
    line_of_fields(one);
    line_of_fields(two);
    line_of_fields(three);
    assert(one[0] == first && two[0] == first && three[0] == first);
    assert(two[1] == from && three[1] == from && three[2] == nonce);
}

proof fn line_of_fields(fields: Seq<Seq<char>>)
    requires
        fields.len() > 0,
        forall|i: int| 0 <= i < fields.len() ==> free_of(#[trigger] fields[i], '\t'),
        fields.last().len() > 0,
        !white_space(fields.last().last()),
    ensures
        split(join(fields, seq!['\t']), '\t') == fields,
        trim_end(join(fields, seq!['\t']).push('\n')) == join(fields, seq!['\t']),
{
    let line = join(fields, seq!['\t']);
    split_joined(fields, '\t');
    if fields.len() > 1 {
        assert(line == join(fields.drop_last(), seq!['\t']) + seq!['\t'] + fields.last());
    }
    assert(line.last() == fields.last().last());
    assert(line.push('\n').drop_last() =~= line);
    trim_end_keeps(line);
    assert(trim_end(line.push('\n')) == trim_end(line));
}

} // verus!
