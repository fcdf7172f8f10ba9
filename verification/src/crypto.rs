//! Keys and sealed messages: X25519 key agreement, HKDF-SHA256 key derivation
//! and ChaCha20-Poly1305.

use vstd::prelude::*;

use crate::error::{Error, ErrorKind, Verdict};
use crate::hex::{decode_hex, hex_decoded};

use chacha20poly1305::aead::rand_core::RngCore;
use chacha20poly1305::aead::{Aead, KeyInit, OsRng};
use chacha20poly1305::{ChaCha20Poly1305, Nonce};

verus! {

/// The length of a nonce.
pub const NONCE_BYTES: usize = 12;

/// The length of the tag that sealing adds.
pub const TAG_BYTES: usize = 16;

/// The longest message that one nonce seals: ChaCha20 counts its blocks of 64
/// bytes in 32 bits, and two of the blocks are not for the message.
pub const MAX_SEALED_BYTES: u64 = 274_877_906_816;

/// The X25519 public key of a secret.
pub uninterp spec fn x25519_public(secret: Seq<u8>) -> Seq<u8>;

/// The X25519 secret that a secret shares with the owner of a public key.
pub uninterp spec fn x25519_shared(secret: Seq<u8>, public: Seq<u8>) -> Seq<u8>;

/// The 32 bytes that HKDF-SHA256 without a salt derives from key material for
/// a purpose.
pub uninterp spec fn hkdf_sha256(material: Seq<u8>, info: Seq<u8>) -> Seq<u8>;

/// The ChaCha20-Poly1305 ciphertext of a message, the tag at its end.
pub uninterp spec fn chacha_sealed(key: Seq<u8>, nonce: Seq<u8>, message: Seq<u8>) -> Seq<u8>;

/// The message in a ChaCha20-Poly1305 ciphertext, where its tag is right.
pub uninterp spec fn chacha_opened(key: Seq<u8>, nonce: Seq<u8>, sealed: Seq<u8>) -> Option<
    Seq<u8>,
>;

/// `x25519_dalek::PublicKey::from` computes the public key of a secret.
#[verifier::external_body]
fn public_key_of(secret: &[u8; 32]) -> (res: [u8; 32])
    ensures
        res@ == x25519_public(secret@),
{
    x25519_dalek::PublicKey::from(&x25519_dalek::StaticSecret::from(*secret)).to_bytes()
}

/// `x25519_dalek::x25519` is the X25519 function. The two sides of an exchange
/// get the same secret: with the public key of a peer's secret, it is what the
/// peer gets with the public key of this secret.
#[verifier::external_body]
fn agree(secret: &[u8; 32], public: &[u8; 32]) -> (res: [u8; 32])
    ensures
        res@ == x25519_shared(secret@, public@),
        forall|peer: Seq<u8>|
            peer.len() == 32 && public@ == #[trigger] x25519_public(peer) ==> res@
                == x25519_shared(peer, x25519_public(secret@)),
{
    x25519_dalek::x25519(*secret, *public)
}

/// `hkdf::Hkdf::<sha2::Sha256>` extracts from the material without a salt and
/// expands to 32 bytes for the purpose `info`. One block of output is always
/// within what it can expand to.
#[verifier::external_body]
fn derive_key(material: &[u8; 32], info: &[u8]) -> (res: [u8; 32])
    ensures
        res@ == hkdf_sha256(material@, info@),
{
    let mut key = [0u8; 32];
    hkdf::Hkdf::<sha2::Sha256>::new(None, material).expand(info, &mut key).expect("one block");
    key
}

/// `ChaCha20Poly1305::encrypt` seals a message under a key and a nonce. Up to
/// the longest message that one nonce seals it succeeds, it adds a tag of 16
/// bytes, and what it returns opens to the message.
#[verifier::external_body]
fn seal(key: &[u8; 32], nonce: &[u8; 12], message: &[u8]) -> (res: Option<Vec<u8>>)
    requires
        message@.len() <= MAX_SEALED_BYTES,
    ensures
        res is Some,
        res->0@ == chacha_sealed(key@, nonce@, message@),
        res->0@.len() == message@.len() + TAG_BYTES,
        chacha_opened(key@, nonce@, res->0@) == Some(message@),
{
    ChaCha20Poly1305::new_from_slice(key).ok()?.encrypt(Nonce::from_slice(nonce), message).ok()
}

/// `ChaCha20Poly1305::decrypt` opens a ciphertext under a key and a nonce, and
/// fails where the tag is not right.
#[verifier::external_body]
fn open(key: &[u8; 32], nonce: &[u8; 12], sealed: &[u8]) -> (res: Option<Vec<u8>>)
    requires
        sealed@.len() <= MAX_SEALED_BYTES + TAG_BYTES,
    ensures
        match res {
            Some(message) => chacha_opened(key@, nonce@, sealed@) == Some(message@),
            None => chacha_opened(key@, nonce@, sealed@) is None,
        },
{
    ChaCha20Poly1305::new_from_slice(key).ok()?.decrypt(Nonce::from_slice(nonce), sealed).ok()
}

/// `OsRng::try_fill_bytes` fills the bytes from the operating system's source
/// of randomness, or fails. Nothing is claimed of the bytes.
#[verifier::external_body]
fn random_array<const N: usize>() -> (res: Option<[u8; N]>) {
    let mut bytes = [0u8; N];
    OsRng.try_fill_bytes(&mut bytes).ok()?;
    Some(bytes)
}

/// A nonce from the operating system's source of randomness, where it gives
/// one.
pub fn random_nonce() -> (res: Option<[u8; NONCE_BYTES]>) {
    random_array::<NONCE_BYTES>()
}

/// A new key pair, secret key first, where the source of randomness gives one.
pub fn generate_keypair() -> (res: Option<([u8; 32], [u8; 32])>)
    ensures
        res matches Some(pair) ==> pair.1@ == x25519_public(pair.0@),
{
    match random_array::<32>() {
        Some(secret) => Some(keypair_of(secret)),
        None => None,
    }
}

/// The key pair of a secret key.
pub fn keypair_of(secret: [u8; 32]) -> (res: ([u8; 32], [u8; 32]))
    ensures
        res.0 == secret,
        res.1@ == x25519_public(secret@),
{
    let public = public_key_of(&secret);
    (secret, public)
}

/// The array that bytes fill exactly. `start` is any array of that length.
pub fn array_of<const N: usize>(bytes: &[u8], start: [u8; N]) -> (res: [u8; N])
    requires
        bytes@.len() == N,
    ensures
        res@ == bytes@,
{
    let mut array = start;
    let mut i: usize = 0;
    while i < bytes.len()
        invariant
            i <= bytes.len(),
            bytes@.len() == N,
            array@.len() == N,
            array@.take(i as int) == bytes@.take(i as int),
        decreases bytes.len() - i,
    {
        let ghost before = array@;
        array[i] = bytes[i];
        assert(array@.take(i + 1) =~= before.take(i as int).push(bytes@[i as int]));
        assert(bytes@.take(i + 1) =~= bytes@.take(i as int).push(bytes@[i as int]));
        i += 1;
    }
    assert(array@.take(i as int) =~= array@);
    assert(bytes@.take(i as int) =~= bytes@);
    array
}

/// The 32 bytes of a public key in hexadecimal.
pub open spec fn key_bytes(text: Seq<char>) -> Option<Seq<u8>> {
    match hex_decoded(text) {
        Some(bytes) => if bytes.len() == 32 {
            Some(bytes)
        } else {
            None
        },
        None => None,
    }
}

/// The key for messages between the owner of a private key and the owner of a
/// public key in hexadecimal, for the purpose `info`.
pub open spec fn message_key(private: Seq<u8>, public: Seq<char>, info: Seq<u8>) -> Verdict<
    Seq<u8>,
> {
    match key_bytes(public) {
        Some(bytes) => Verdict::Done(hkdf_sha256(x25519_shared(private, bytes), info)),
        None => Verdict::Fails(ErrorKind::InvalidData, "bad public key"@),
    }
}

/// The key for messages between the owner of a private key and the owner of a
/// public key in hexadecimal, for the purpose `info`. Both owners get the same
/// key.
pub fn shared_key(private_key: &[u8; 32], public_key: &str, info: &[u8]) -> (res: Result<
    [u8; 32],
    Error,
>)
    ensures
        match res {
            Ok(key) => message_key(private_key@, public_key@, info@) == Verdict::Done(key@),
            Err(error) => message_key(private_key@, public_key@, info@) == Verdict::<
                Seq<u8>,
            >::Fails(error.kind, error.message@),
        },
        res matches Ok(key) ==> forall|peer: Seq<u8>|
            peer.len() == 32 && key_bytes(public_key@) == Some(#[trigger] x25519_public(peer))
                ==> key@ == hkdf_sha256(x25519_shared(peer, x25519_public(private_key@)), info@),
{
    match decode_hex(public_key) {
        Some(bytes) => if bytes.len() == 32 {
            let public = array_of::<32>(&bytes, [0u8; 32]);
            let material = agree(private_key, &public);
            Ok(derive_key(&material, info))
        } else {
            Err(Error::new(ErrorKind::InvalidData, "bad public key"))
        },
        None => Err(Error::new(ErrorKind::InvalidData, "bad public key")),
    }
}

/// Seals a message, unless it is longer than one nonce seals.
pub fn seal_message(key: &[u8; 32], nonce: &[u8; 12], message: &[u8]) -> (res: Option<Vec<u8>>)
    ensures
        match res {
            Some(sealed) => message@.len() <= MAX_SEALED_BYTES && sealed@ == chacha_sealed(
                key@,
                nonce@,
                message@,
            ) && sealed@.len() == message@.len() + TAG_BYTES && chacha_opened(
                key@,
                nonce@,
                sealed@,
            ) == Some(message@),
            None => message@.len() > MAX_SEALED_BYTES,
        },
{
    if message.len() as u64 > MAX_SEALED_BYTES {
        None
    } else {
        seal(key, nonce, message)
    }
}

/// Opens a sealed message, where it is not longer than one nonce seals and its
/// tag is right.
pub fn open_message(key: &[u8; 32], nonce: &[u8; 12], sealed: &[u8]) -> (res: Option<Vec<u8>>)
    ensures
        match res {
            Some(message) => sealed@.len() <= MAX_SEALED_BYTES + TAG_BYTES && chacha_opened(
                key@,
                nonce@,
                sealed@,
            ) == Some(message@),
            None => sealed@.len() > MAX_SEALED_BYTES + TAG_BYTES || chacha_opened(
                key@,
                nonce@,
                sealed@,
            ) is None,
        },
{
    if sealed.len() as u64 > MAX_SEALED_BYTES + TAG_BYTES as u64 {
        None
    } else {
        open(key, nonce, sealed)
    }
}

} // verus!
