//! The outside functions this crate rests on: hashing, signatures, encryption, randomness, and
//! the spelling of endpoint keys and relay addresses.
//!
//! Each function here makes one call. What it promises of the call is not proved; it is read off
//! the called crate. Names without a body stand for results that only the called crate computes.
use chacha20poly1305::aead::{Aead, Payload};
use chacha20poly1305::{KeyInit, XChaCha20Poly1305};
use ed25519_dalek::{Signature, Signer, SigningKey, Verifier, VerifyingKey};
use hpke::aead::ChaCha20Poly1305;
use hpke::kdf::HkdfSha256;
use hpke::kem::X25519HkdfSha256;
use hpke::{Deserializable, Kem, OpModeR, OpModeS, Serializable};
use crate::wire;
use vstd::prelude::*;

verus! {

/// The BLAKE3 hash of `data`.
pub uninterp spec fn blake3_hash(data: Seq<u8>) -> Seq<u8>;

/// The key that BLAKE3's key derivation gives for `context` and `material`.
pub uninterp spec fn blake3_derived(context: Seq<char>, material: Seq<u8>) -> Seq<u8>;

/// The BLAKE3 hash of `data` under `key`.
pub uninterp spec fn blake3_keyed(key: Seq<u8>, data: Seq<u8>) -> Seq<u8>;

/// Whether `key` is the encoding of a point that Ed25519 accepts as a public key.
pub uninterp spec fn ed25519_key_ok(key: Seq<u8>) -> bool;

/// The Ed25519 public key of `secret`.
pub uninterp spec fn ed25519_public(secret: Seq<u8>) -> Seq<u8>;

/// The Ed25519 signature of `message` under `secret`.
pub uninterp spec fn ed25519_signature(secret: Seq<u8>, message: Seq<u8>) -> Seq<u8>;

/// Whether `signature` is a valid Ed25519 signature of `message` under the public key `key`.
pub uninterp spec fn ed25519_verifies(key: Seq<u8>, message: Seq<u8>, signature: Seq<u8>) -> bool;

/// What XChaCha20-Poly1305 makes of `plaintext`, with the authentication tag at the end.
pub uninterp spec fn xchacha_sealed(
    key: Seq<u8>,
    nonce: Seq<u8>,
    plaintext: Seq<u8>,
    associated: Seq<u8>,
) -> Option<Seq<u8>>;

/// The plaintext that XChaCha20-Poly1305 finds in `ciphertext`, if its tag is right.
pub uninterp spec fn xchacha_opened(
    key: Seq<u8>,
    nonce: Seq<u8>,
    ciphertext: Seq<u8>,
    associated: Seq<u8>,
) -> Option<Seq<u8>>;

/// The X25519 public key of `secret`.
pub uninterp spec fn hpke_public(secret: Seq<u8>) -> Seq<u8>;

/// Whether a message can be sealed to the X25519 public key `key`: it is no point of small order.
pub uninterp spec fn hpke_usable(key: Seq<u8>) -> bool;

/// The plaintext that HPKE finds in `ciphertext` for the holder of `secret`, if it was sealed to
/// them with this encapsulated key, this purpose and this associated data.
pub uninterp spec fn hpke_opened(
    secret: Seq<u8>,
    encapsulated: Seq<u8>,
    info: Seq<u8>,
    ciphertext: Seq<u8>,
    associated: Seq<u8>,
) -> Option<Seq<u8>>;

/// Whether `bytes` are the bytes of an endpoint's public key.
pub uninterp spec fn endpoint_key_ok(bytes: Seq<u8>) -> bool;

/// The public key of the endpoint that holds `secret`.
pub uninterp spec fn endpoint_public(secret: Seq<u8>) -> Seq<u8>;

/// The canonical spelling of the relay address `url`, if it is one.
pub uninterp spec fn relay_url_canonical(url: Seq<char>) -> Option<Seq<char>>;

/// The lower-case hexadecimal digit for a number below sixteen.
pub open spec fn hex_digit(n: int) -> char {
    if n < 10 {
        (48 + n) as char
    } else {
        (87 + n) as char
    }
}

/// The number that the byte `c` stands for as a hexadecimal digit, in either case.
pub open spec fn hex_value(c: u8) -> Option<u8> {
    if 48 <= c <= 57 {
        Some((c - 48) as u8)
    } else if 65 <= c <= 70 {
        Some((c - 55) as u8)
    } else if 97 <= c <= 102 {
        Some((c - 87) as u8)
    } else {
        None
    }
}

/// Each byte as two lower-case hexadecimal digits.
pub open spec fn hex_text(bytes: Seq<u8>) -> Seq<char> {
    Seq::new(
        2 * bytes.len(),
        |i: int| hex_digit(if i % 2 == 0 { bytes[i / 2] / 16 } else { bytes[i / 2] % 16 } as int),
    )
}

/// The bytes that `text` spells, two hexadecimal digits each.
pub open spec fn hex_bytes(text: Seq<u8>) -> Option<Seq<u8>> {
    if text.len() % 2 == 0 && forall|i: int| 0 <= i < text.len() ==> hex_value(#[trigger] text[i])
        is Some {
        Some(
            Seq::new(
                text.len() / 2,
                |i: int| (16 * hex_value(text[2 * i])->0 + hex_value(text[2 * i + 1])->0) as u8,
            ),
        )
    } else {
        None
    }
}

/// Calls `hex::encode`, which writes each byte as two lower-case hexadecimal digits.
#[verifier::external_body]
pub(crate) fn hex_encode(bytes: &[u8]) -> (text: String)
    ensures
        text@ == hex_text(bytes@),
{
    hex::encode(bytes)
}

/// Calls `hex::decode`, which reads pairs of hexadecimal digits in either case and refuses an odd
/// number of them and any other byte.
#[verifier::external_body]
pub(crate) fn hex_decode(text: &str) -> (bytes: Option<Vec<u8>>)
    ensures
        hex_bytes(wire::utf8(text@)) == (match bytes {
            Some(bytes) => Some(bytes@),
            None => None,
        }),
{
    hex::decode(text).ok()
}

/// Calls `std::str::from_utf8`, which accepts exactly the byte sequences that are UTF-8, and gives
/// the text they spell.
#[verifier::external_body]
pub(crate) fn utf8_text(bytes: &[u8]) -> (text: Option<String>)
    ensures
        match text {
            Some(text) => wire::utf8(text@) == bytes@,
            None => !vstd::utf8::valid_utf8(bytes@),
        },
{
    std::str::from_utf8(bytes).ok().map(|text| text.to_owned())
}

/// Calls `blake3::hash`. The result depends on the data alone.
#[verifier::external_body]
pub(crate) fn hash(data: &[u8]) -> (digest: [u8; 32])
    ensures
        digest@ == blake3_hash(data@),
{
    *blake3::hash(data).as_bytes()
}

/// Calls `blake3::derive_key`. The result depends on the context string and the key material
/// alone; feeding the material to the incremental hasher piece by piece gives the same bytes.
#[verifier::external_body]
pub(crate) fn derive_key(context: &str, material: &[u8]) -> (key: [u8; 32])
    ensures
        key@ == blake3_derived(context@, material@),
{
    blake3::derive_key(context, material)
}

/// Calls `blake3::keyed_hash`. The result depends on the key and the data alone; feeding the data
/// to the incremental hasher piece by piece gives the same bytes.
#[verifier::external_body]
pub(crate) fn keyed_hash(key: &[u8; 32], data: &[u8]) -> (digest: [u8; 32])
    ensures
        digest@ == blake3_keyed(key@, data@),
{
    *blake3::keyed_hash(key, data).as_bytes()
}

/// Calls `ed25519_dalek::VerifyingKey::from_bytes`, which accepts the encodings of curve points.
#[verifier::external_body]
pub(crate) fn verifying_key_ok(key: &[u8; 32]) -> (ok: bool)
    ensures
        ok == ed25519_key_ok(key@),
{
    VerifyingKey::from_bytes(key).is_ok()
}

/// Calls `ed25519_dalek::SigningKey::verifying_key`. The public key depends on the secret alone
/// and is itself an encoding that `VerifyingKey::from_bytes` accepts.
#[verifier::external_body]
pub(crate) fn public_key(secret: &[u8; 32]) -> (key: [u8; 32])
    ensures
        key@ == ed25519_public(secret@),
        ed25519_key_ok(key@),
{
    SigningKey::from_bytes(secret).verifying_key().to_bytes()
}

/// Calls `ed25519_dalek::Signer::sign`. Signing is deterministic, and what a secret signs
/// verifies under its public key.
#[verifier::external_body]
pub(crate) fn sign(secret: &[u8; 32], message: &[u8]) -> (signature: [u8; 64])
    ensures
        signature@ == ed25519_signature(secret@, message@),
        ed25519_verifies(ed25519_public(secret@), message@, signature@),
{
    SigningKey::from_bytes(secret).sign(message).to_bytes()
}

/// Calls `ed25519_dalek::Verifier::verify` on the key that `VerifyingKey::from_bytes` reads. The
/// answer depends on the three arguments alone, and is "no" for bytes that are no key.
#[verifier::external_body]
pub(crate) fn verify(key: &[u8; 32], message: &[u8], signature: &[u8; 64]) -> (ok: bool)
    ensures
        ok == ed25519_verifies(key@, message@, signature@),
        ok ==> ed25519_key_ok(key@),
{
    VerifyingKey::from_bytes(key)
        .and_then(|key| key.verify(message, &Signature::from_bytes(signature)))
        .is_ok()
}

/// Calls `getrandom::fill` on an array of `N` bytes. Nothing is known of the bytes; `None` says
/// that the system gave none.
#[verifier::external_body]
pub(crate) fn random_array<const N: usize>() -> (bytes: Option<[u8; N]>) {
    let mut bytes = [0u8; N];
    getrandom::fill(&mut bytes).ok().map(|()| bytes)
}

/// Calls `chacha20poly1305`'s `Aead::encrypt`. The ciphertext depends on the four arguments
/// alone, is sixteen bytes longer than the plaintext, and opens to the plaintext under the same
/// key, nonce and associated data. The call refuses only plaintexts of 2^38 - 64 bytes or more.
#[verifier::external_body]
pub(crate) fn seal_xchacha(
    key: &[u8; 32],
    nonce: &[u8; 24],
    plaintext: &[u8],
    associated: &[u8],
) -> (ciphertext: Option<Vec<u8>>)
    ensures
        xchacha_sealed(key@, nonce@, plaintext@, associated@) == (match ciphertext {
            Some(bytes) => Some(bytes@),
            None => None,
        }),
        plaintext@.len() < 0x3f_ffff_ffc0 ==> ciphertext is Some,
        ciphertext matches Some(bytes) ==> bytes@.len() == plaintext@.len() + 16
            && xchacha_opened(key@, nonce@, bytes@, associated@) == Some(plaintext@),
{
    XChaCha20Poly1305::new(key.into())
        .encrypt(nonce.into(), Payload { msg: plaintext, aad: associated })
        .ok()
}

/// Calls `chacha20poly1305`'s `Aead::decrypt`. The result depends on the four arguments alone,
/// and is sixteen bytes shorter than the ciphertext.
#[verifier::external_body]
pub(crate) fn open_xchacha(
    key: &[u8; 32],
    nonce: &[u8; 24],
    ciphertext: &[u8],
    associated: &[u8],
) -> (plaintext: Option<Vec<u8>>)
    ensures
        xchacha_opened(key@, nonce@, ciphertext@, associated@) == (match plaintext {
            Some(bytes) => Some(bytes@),
            None => None,
        }),
        plaintext matches Some(bytes) ==> bytes@.len() + 16 == ciphertext@.len(),
{
    XChaCha20Poly1305::new(key.into())
        .decrypt(nonce.into(), Payload { msg: ciphertext, aad: associated })
        .ok()
}

/// Calls `hpke`'s `Kem::gen_keypair` for X25519. The two halves belong together, and messages can
/// be sealed to the public one. Which pair comes back rests on chance; the call panics where the
/// system gives no randomness.
#[verifier::external_body]
pub(crate) fn hpke_generate() -> (pair: ([u8; 32], [u8; 32]))
    ensures
        pair.1@ == hpke_public(pair.0@),
        hpke_usable(pair.1@),
{
    let (secret, public) = X25519HkdfSha256::gen_keypair();
    (secret.to_bytes().into(), public.to_bytes().into())
}

/// Calls `hpke`'s `Kem::sk_to_pk` for X25519. Any thirty-two bytes are a secret key. The public
/// key depends on them alone; it is a multiple of the base point, never one of small order, so
/// that messages can be sealed to it.
#[verifier::external_body]
pub(crate) fn hpke_public_key(secret: &[u8; 32]) -> (key: Option<[u8; 32]>)
    ensures
        key matches Some(key) && key@ == hpke_public(secret@) && hpke_usable(key@),
{
    <X25519HkdfSha256 as Kem>::PrivateKey::from_bytes(secret)
        .ok()
        .map(|secret| X25519HkdfSha256::sk_to_pk(&secret).to_bytes().into())
}

/// Calls `hpke::setup_sender` and seals one message with the context it gives. The pair is the
/// encapsulated key, of thirty-two bytes, and a ciphertext sixteen bytes longer than the
/// plaintext; whoever holds the secret half of `recipient` opens it with the same purpose and
/// associated data. The pair itself rests on chance, and so does nothing else: the call fails
/// where the shared secret is all zero, which X25519 gives for the points of small order and for
/// no others, whatever ephemeral key was drawn. It panics where the system gives no randomness.
#[verifier::external_body]
pub(crate) fn hpke_seal(
    recipient: &[u8; 32],
    info: &[u8],
    plaintext: &[u8; 32],
    associated: &[u8],
) -> (wrap: Option<(Vec<u8>, Vec<u8>)>)
    requires
        info@.len() < 60000,
    ensures
        wrap is Some == hpke_usable(recipient@),
        wrap matches Some((encapsulated, ciphertext)) ==> encapsulated@.len() == 32
            && ciphertext@.len() == 48,
        wrap matches Some((encapsulated, ciphertext)) ==> forall|secret: Seq<u8>|
            secret.len() == 32 && #[trigger] hpke_public(secret) == recipient@ ==> hpke_opened(
                secret,
                encapsulated@,
                info@,
                ciphertext@,
                associated@,
            ) == Some(plaintext@),
{
    let key = <X25519HkdfSha256 as Kem>::PublicKey::from_bytes(recipient).ok()?;
    let (encapsulated, mut context) = hpke::setup_sender::<
        ChaCha20Poly1305,
        HkdfSha256,
        X25519HkdfSha256,
    >(&OpModeS::Base, &key, info).ok()?;
    let ciphertext = context.seal(plaintext, associated).ok()?;
    Some((encapsulated.to_bytes().to_vec(), ciphertext))
}

/// Calls `hpke::setup_receiver` and opens one message with the context it gives. The result
/// depends on the arguments alone.
#[verifier::external_body]
pub(crate) fn hpke_open(
    secret: &[u8; 32],
    encapsulated: &[u8],
    info: &[u8],
    ciphertext: &[u8],
    associated: &[u8],
) -> (plaintext: Option<Vec<u8>>)
    requires
        info@.len() < 60000,
    ensures
        hpke_opened(secret@, encapsulated@, info@, ciphertext@, associated@) == (match plaintext {
            Some(bytes) => Some(bytes@),
            None => None,
        }),
{
    let secret = <X25519HkdfSha256 as Kem>::PrivateKey::from_bytes(secret).ok()?;
    let key = <X25519HkdfSha256 as Kem>::EncappedKey::from_bytes(encapsulated).ok()?;
    hpke::setup_receiver::<ChaCha20Poly1305, HkdfSha256, X25519HkdfSha256>(
        &OpModeR::Base,
        &secret,
        &key,
        info,
    ).ok()?.open(ciphertext, associated).ok()
}

/// Calls `iroh::EndpointId::from_bytes`, which accepts the bytes of public keys, and gives the words
/// of its error for all others.
#[verifier::external_body]
pub(crate) fn endpoint_id_refusal(bytes: &[u8; 32]) -> (refusal: Option<String>)
    ensures
        refusal is None == endpoint_key_ok(bytes@),
        refusal matches Some(words) ==> words@ == "data is not a valid public key"@,
{
    iroh::EndpointId::from_bytes(bytes).err().map(|error| error.to_string())
}

/// Whether bytes are the public key of an endpoint.
pub(crate) fn endpoint_id_ok(bytes: &[u8; 32]) -> (ok: bool)
    ensures
        ok == endpoint_key_ok(bytes@),
{
    endpoint_id_refusal(bytes).is_none()
}

/// Calls `iroh::SecretKey::generate`. Nothing is known of the key, which rests on chance; the
/// call panics where the system gives no randomness.
#[verifier::external_body]
pub(crate) fn endpoint_generate() -> (secret: [u8; 32]) {
    iroh::SecretKey::generate().to_bytes()
}

/// Calls `iroh::SecretKey::public`. The public key depends on the secret alone and is itself
/// accepted by `EndpointId::from_bytes`.
#[verifier::external_body]
pub(crate) fn endpoint_public_key(secret: &[u8; 32]) -> (key: [u8; 32])
    ensures
        key@ == endpoint_public(secret@),
        endpoint_key_ok(key@),
{
    *iroh::SecretKey::from_bytes(secret).public().as_bytes()
}

/// Parses an `iroh::RelayUrl` and gives back its canonical spelling, which depends on the text
/// alone.
#[verifier::external_body]
pub(crate) fn parse_relay_url(url: &str) -> (canonical: Option<String>)
    ensures
        relay_url_canonical(url@) == (match canonical {
            Some(text) => Some(text@),
            None => None,
        }),
{
    url.parse::<iroh::RelayUrl>().ok().map(|url| url.to_string())
}

} // verus!
