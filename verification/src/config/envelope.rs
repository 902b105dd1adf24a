//! Signed, encrypted configuration envelopes: their wire format and their place in the chain.
use crate::config::snapshot::SnapshotError;
use crate::crypto::keys::CertificateError;
use crate::identifiers::NetworkId;
use crate::outside;
use crate::outside::hash;
use crate::wire;
use crate::wire::{
    copy_range, push_be, push_bytes, read_array, read_u16, read_u64, starts_at, Cursor,
};
use crate::text;
use crate::text::{decimal, joined};
use vstd::prelude::*;

verus! {

/// The first bytes of an envelope.
pub const ENVELOPE_MAGIC: [u8; 8] = [87, 86, 82, 67, 70, 71, 0, 1];

/// The first bytes of what an envelope's ciphertext is bound to.
pub const ENVELOPE_AAD_MAGIC: [u8; 8] = [87, 86, 82, 67, 70, 71, 65, 1];

/// The only format of envelopes.
pub const FORMAT_VERSION: u16 = 1;

pub const MAX_CONFIG_PLAINTEXT: usize = 1048576;

pub const MAX_CIPHERTEXT: usize = 1048608;

pub const MAX_KEY_WRAPS: usize = 256;

pub const MAX_WRAP_PART: usize = 1024;

/// The length of the signature behind the signed bytes.
pub const ENVELOPE_SIGNATURE_LEN: usize = 64;

/// Why an envelope or a batch was refused.
#[derive(Clone, Copy, Debug, PartialEq, Eq)]
pub enum ConfigError {
    RandomnessUnavailable,
    InvalidMemberKey,
    InvalidRecipientCount,
    PayloadTooLarge,
    EncryptionFailed,
    DecryptionFailed,
    KeyWrapFailed,
    NoRecipientWrap,
    MalformedWire,
    UnsupportedVersion(u16),
    WrongNetwork,
    WrongSigner,
    PermissionDenied,
    Signature(CertificateError),
    ChainMismatch,
    PayloadHashMismatch,
    EnvelopePayloadMismatch,
    Snapshot(SnapshotError),
    RecipientSetMismatch,
    UpdateBatchTooLarge,
}

impl ConfigError {
    /// The message for people.
    pub open spec fn text(self) -> Seq<char> {
        match self {
            ConfigError::RandomnessUnavailable => "secure randomness is unavailable"@,
            ConfigError::InvalidMemberKey => "invalid member encryption key"@,
            ConfigError::InvalidRecipientCount => "invalid recipient count"@,
            ConfigError::PayloadTooLarge => "configuration payload is too large"@,
            ConfigError::EncryptionFailed => "configuration encryption failed"@,
            ConfigError::DecryptionFailed => "configuration decryption or authentication failed"@,
            ConfigError::KeyWrapFailed => "HPKE key wrapping failed"@,
            ConfigError::NoRecipientWrap => "no key wrap can be opened by this member"@,
            ConfigError::MalformedWire => "malformed configuration envelope"@,
            ConfigError::UnsupportedVersion(version) => {
                "unsupported configuration envelope version "@ + text::decimal_text(version as nat)
            },
            ConfigError::WrongNetwork => "configuration belongs to another network"@,
            ConfigError::WrongSigner => "configuration signer does not match network root"@,
            ConfigError::PermissionDenied => {
                "online administrator lacks configuration-write permission"@
            },
            ConfigError::Signature(error) => "configuration signature failed: "@ + error.text(),
            ConfigError::ChainMismatch => {
                "configuration chain revision or previous hash does not match current head"@
            },
            ConfigError::PayloadHashMismatch => {
                "decrypted configuration hash differs from signed payload hash"@
            },
            ConfigError::EnvelopePayloadMismatch => {
                "configuration envelope metadata differs from its decrypted snapshot"@
            },
            ConfigError::Snapshot(error) => {
                "configuration snapshot failed validation: "@ + error.text()
            },
            ConfigError::RecipientSetMismatch => {
                "configuration recipient wraps do not exactly match active member encryption keys"@
            },
            ConfigError::UpdateBatchTooLarge => {
                "configuration update batch exceeds protocol limits"@
            },
        }
    }

    /// The message for people.
    pub fn message(&self) -> (text: String)
        ensures
            text@ == self.text(),
    {
        match self {
            ConfigError::RandomnessUnavailable => "secure randomness is unavailable".to_owned(),
            ConfigError::InvalidMemberKey => "invalid member encryption key".to_owned(),
            ConfigError::InvalidRecipientCount => "invalid recipient count".to_owned(),
            ConfigError::PayloadTooLarge => "configuration payload is too large".to_owned(),
            ConfigError::EncryptionFailed => "configuration encryption failed".to_owned(),
            ConfigError::DecryptionFailed => {
                "configuration decryption or authentication failed".to_owned()
            },
            ConfigError::KeyWrapFailed => "HPKE key wrapping failed".to_owned(),
            ConfigError::NoRecipientWrap => "no key wrap can be opened by this member".to_owned(),
            ConfigError::MalformedWire => "malformed configuration envelope".to_owned(),
            ConfigError::UnsupportedVersion(version) => {
                joined("unsupported configuration envelope version ", decimal(*version as u64).as_str())
            },
            ConfigError::WrongNetwork => "configuration belongs to another network".to_owned(),
            ConfigError::WrongSigner => {
                "configuration signer does not match network root".to_owned()
            },
            ConfigError::PermissionDenied => {
                "online administrator lacks configuration-write permission".to_owned()
            },
            ConfigError::Signature(error) => {
                joined("configuration signature failed: ", error.message())
            },
            ConfigError::ChainMismatch => {
                "configuration chain revision or previous hash does not match current head".to_owned()
            },
            ConfigError::PayloadHashMismatch => {
                "decrypted configuration hash differs from signed payload hash".to_owned()
            },
            ConfigError::EnvelopePayloadMismatch => {
                "configuration envelope metadata differs from its decrypted snapshot".to_owned()
            },
            ConfigError::Snapshot(error) => {
                joined("configuration snapshot failed validation: ", error.message().as_str())
            },
            ConfigError::RecipientSetMismatch => {
                "configuration recipient wraps do not exactly match active member encryption keys".to_owned()
            },
            ConfigError::UpdateBatchTooLarge => {
                "configuration update batch exceeds protocol limits".to_owned()
            },
        }
    }
}

/// A content key that was sealed for one recipient.
#[derive(Debug, PartialEq, Eq)]
pub struct KeyWrap {
    pub encapsulated_key: Vec<u8>,
    pub ciphertext: Vec<u8>,
}

/// The contents of a key wrap.
pub struct Wrap {
    pub encapsulated_key: Seq<u8>,
    pub ciphertext: Seq<u8>,
}

impl View for KeyWrap {
    type V = Wrap;

    open spec fn view(&self) -> Wrap {
        Wrap { encapsulated_key: self.encapsulated_key@, ciphertext: self.ciphertext@ }
    }
}

/// One revision of the configuration, encrypted for the members and signed.
#[derive(Debug, PartialEq, Eq)]
pub struct EncryptedConfigEnvelope {
    pub format_version: u16,
    pub network_id: NetworkId,
    pub epoch: u64,
    pub revision: u64,
    pub previous_hash: [u8; 32],
    pub payload_hash: [u8; 32],
    pub nonce: [u8; 24],
    pub ciphertext: Vec<u8>,
    pub member_key_wraps: Vec<KeyWrap>,
    pub signer_key_id: [u8; 16],
    pub(crate) signed_bytes: Vec<u8>,
    pub(crate) signature: [u8; 64],
}

/// The fields of an envelope.
pub struct Envelope {
    pub format_version: u16,
    pub network_id: NetworkId,
    pub epoch: u64,
    pub revision: u64,
    pub previous_hash: [u8; 32],
    pub payload_hash: [u8; 32],
    pub nonce: [u8; 24],
    pub ciphertext: Seq<u8>,
    pub wraps: Seq<Wrap>,
    pub signer_key_id: [u8; 16],
    pub signed: Seq<u8>,
    pub signature: [u8; 64],
}

/// The contents of each of several key wraps.
pub open spec fn wrap_views(s: Seq<KeyWrap>) -> Seq<Wrap> {
    Seq::new(s.len(), |i: int| s[i]@)
}

impl View for EncryptedConfigEnvelope {
    type V = Envelope;

    closed spec fn view(&self) -> Envelope {
        Envelope {
            format_version: self.format_version,
            network_id: self.network_id,
            epoch: self.epoch,
            revision: self.revision,
            previous_hash: self.previous_hash,
            payload_hash: self.payload_hash,
            nonce: self.nonce,
            ciphertext: self.ciphertext@,
            wraps: wrap_views(self.member_key_wraps@),
            signer_key_id: self.signer_key_id,
            signed: self.signed_bytes@,
            signature: self.signature,
        }
    }
}

impl Clone for KeyWrap {
    fn clone(&self) -> (copy: Self)
        ensures
            copy@ == self@,
    {
        let encapsulated_key: Vec<u8> = self.encapsulated_key.clone();
        let ciphertext: Vec<u8> = self.ciphertext.clone();
        assert(encapsulated_key@ =~= self.encapsulated_key@);
        assert(ciphertext@ =~= self.ciphertext@);
        KeyWrap { encapsulated_key, ciphertext }
    }
}

impl Clone for EncryptedConfigEnvelope {
    fn clone(&self) -> (copy: Self)
        ensures
            copy@ == self@,
    {
        let copy = EncryptedConfigEnvelope {
            format_version: self.format_version,
            network_id: self.network_id,
            epoch: self.epoch,
            revision: self.revision,
            previous_hash: self.previous_hash,
            payload_hash: self.payload_hash,
            nonce: self.nonce,
            ciphertext: self.ciphertext.clone(),
            member_key_wraps: self.member_key_wraps.clone(),
            signer_key_id: self.signer_key_id,
            signed_bytes: self.signed_bytes.clone(),
            signature: self.signature,
        };
        assert forall|i: int| 0 <= i < self.member_key_wraps@.len() implies wrap_views(
            copy.member_key_wraps@,
        )[i] == wrap_views(self.member_key_wraps@)[i] by {
            assert(cloned(self.member_key_wraps@[i], copy.member_key_wraps@[i]));
        }
        assert(wrap_views(copy.member_key_wraps@) =~= wrap_views(self.member_key_wraps@));
        assert(copy.ciphertext@ =~= self.ciphertext@);
        assert(copy.signed_bytes@ =~= self.signed_bytes@);
        copy
    }
}

/// The contents of an envelope are its fields.
pub(crate) proof fn lemma_envelope_fields(e: &EncryptedConfigEnvelope)
    ensures
        e@.format_version == e.format_version,
        e@.network_id == e.network_id,
        e@.epoch == e.epoch,
        e@.revision == e.revision,
        e@.previous_hash == e.previous_hash,
        e@.payload_hash == e.payload_hash,
        e@.nonce == e.nonce,
        e@.ciphertext == e.ciphertext@,
        e@.wraps == wrap_views(e.member_key_wraps@),
        e@.signer_key_id == e.signer_key_id,
        e@.signed == e.signed_bytes@,
        e@.signature == e.signature,
{
}

/// The encoding of a key wrap: each part behind its length.
pub open spec fn wrap_bytes(w: Wrap) -> Seq<u8> {
    wire::be(w.encapsulated_key.len(), 2) + (w.encapsulated_key + (wire::be(w.ciphertext.len(), 2)
        + w.ciphertext))
}

/// How key wraps are written.
pub open spec fn wrap_enc() -> spec_fn(Wrap) -> Seq<u8> {
    |w: Wrap| wrap_bytes(w)
}

/// The key wraps behind their number, and the signer.
pub open spec fn recipients_bytes(e: Envelope) -> Seq<u8> {
    wire::be(e.wraps.len(), 2) + (wire::items_bytes(wrap_enc(), e.wraps) + e.signer_key_id@)
}

/// The ciphertext behind its length, and all that follows it.
pub open spec fn body_bytes(e: Envelope) -> Seq<u8> {
    wire::be(e.ciphertext.len(), 4) + (e.ciphertext + recipients_bytes(e))
}

/// What is signed: the fields of an envelope in order, numbers big-endian.
pub open spec fn unsigned_bytes(e: Envelope) -> Seq<u8> {
    ENVELOPE_MAGIC@ + (wire::be(e.format_version as nat, 2) + (e.network_id@ + (wire::be(
        e.epoch as nat,
        8,
    ) + (wire::be(e.revision as nat, 8) + (e.previous_hash@ + (e.payload_hash@ + (e.nonce@
        + body_bytes(e))))))))
}

/// The bytes of an envelope: what is signed, and the signature.
pub open spec fn envelope_bytes(e: Envelope) -> Seq<u8> {
    e.signed + e.signature@
}

/// The identity of an envelope in the chain: the hash of its exact bytes.
pub open spec fn envelope_digest(e: Envelope) -> [u8; 32] {
    wire::array_of(outside::blake3_hash(envelope_bytes(e)))
}

/// One part of a key wrap.
pub open spec fn p_part(r: Seq<u8>) -> Result<(Seq<u8>, Seq<u8>), ConfigError> {
    match wire::take_u16(r) {
        None => Err(ConfigError::MalformedWire),
        Some((n, r1)) => if n == 0 || n > MAX_WRAP_PART {
            Err(ConfigError::MalformedWire)
        } else {
            match wire::take_bytes(r1, n as int) {
                None => Err(ConfigError::MalformedWire),
                Some((part, rest)) => Ok((part, rest)),
            }
        },
    }
}

/// A key wrap.
pub open spec fn p_wrap(r: Seq<u8>) -> Result<(Wrap, Seq<u8>), ConfigError> {
    match p_part(r) {
        Err(e) => Err(e),
        Ok((encapsulated_key, r1)) => match p_part(r1) {
            Err(e) => Err(e),
            Ok((ciphertext, rest)) => Ok((Wrap { encapsulated_key, ciphertext }, rest)),
        },
    }
}

/// How key wraps are read.
pub open spec fn wrap_dec() -> spec_fn(Seq<u8>) -> Result<(Wrap, Seq<u8>), ConfigError> {
    |r: Seq<u8>| p_wrap(r)
}

/// The ciphertext behind its length.
pub open spec fn p_ciphertext(r: Seq<u8>) -> Result<(Seq<u8>, Seq<u8>), ConfigError> {
    match wire::take_u32(r) {
        None => Err(ConfigError::MalformedWire),
        Some((n, r1)) => if n > MAX_CIPHERTEXT {
            Err(ConfigError::PayloadTooLarge)
        } else {
            match wire::take_bytes(r1, n as int) {
                None => Err(ConfigError::MalformedWire),
                Some((ciphertext, rest)) => Ok((ciphertext, rest)),
            }
        },
    }
}

/// The key wraps behind their number.
pub open spec fn p_wraps(r: Seq<u8>) -> Result<(Seq<Wrap>, Seq<u8>), ConfigError> {
    match wire::take_u16(r) {
        None => Err(ConfigError::MalformedWire),
        Some((n, r1)) => if n == 0 || n > MAX_KEY_WRAPS {
            Err(ConfigError::InvalidRecipientCount)
        } else {
            wire::p_items(wrap_dec(), r1, n as nat)
        },
    }
}

/// The fields of fixed length that follow the version.
pub struct Head {
    pub network_id: NetworkId,
    pub epoch: u64,
    pub revision: u64,
    pub previous_hash: [u8; 32],
    pub payload_hash: [u8; 32],
    pub nonce: [u8; 24],
}

/// The length of the fields of fixed length.
pub const ENVELOPE_HEAD_LEN: usize = 136;

/// The fields of fixed length.
pub open spec fn p_head(r: Seq<u8>) -> Option<(Head, Seq<u8>)> {
    if r.len() < ENVELOPE_HEAD_LEN {
        None
    } else {
        Some(
            (
                Head {
                    network_id: NetworkId(wire::array_at(r, 0)),
                    epoch: wire::u64_at(r, 32),
                    revision: wire::u64_at(r, 40),
                    previous_hash: wire::array_at(r, 48),
                    payload_hash: wire::array_at(r, 80),
                    nonce: wire::array_at(r, 112),
                },
                r.subrange(ENVELOPE_HEAD_LEN as int, r.len() as int),
            ),
        )
    }
}

/// All that follows the version.
pub open spec fn p_fields(
    r: Seq<u8>,
    version: u16,
    signed: Seq<u8>,
    signature: [u8; 64],
) -> Result<Envelope, ConfigError> {
    match p_head(r) {
        None => Err(ConfigError::MalformedWire),
        Some((head, r1)) => match p_ciphertext(r1) {
            Err(e) => Err(e),
            Ok((ciphertext, r2)) => match p_wraps(r2) {
                Err(e) => Err(e),
                Ok((wraps, r3)) => if r3.len() != 16 {
                    Err(ConfigError::MalformedWire)
                } else {
                    Ok(
                        Envelope {
                            format_version: version,
                            network_id: head.network_id,
                            epoch: head.epoch,
                            revision: head.revision,
                            previous_hash: head.previous_hash,
                            payload_hash: head.payload_hash,
                            nonce: head.nonce,
                            ciphertext,
                            wraps,
                            signer_key_id: wire::array_of(r3),
                            signed,
                            signature,
                        },
                    )
                },
            },
        },
    }
}

/// The envelope that some bytes hold, or why they hold none: broken bytes, an unknown version, a
/// ciphertext that is too long, or a number of key wraps that no envelope has.
#[verifier::opaque]
pub open spec fn read_envelope(b: Seq<u8>) -> Result<Envelope, ConfigError> {
    if b.len() < ENVELOPE_SIGNATURE_LEN {
        Err(ConfigError::MalformedWire)
    } else {
        let n = b.len() - ENVELOPE_SIGNATURE_LEN;
        let signed = b.subrange(0, n);
        if n < 10 || !wire::has_at(signed, 0, ENVELOPE_MAGIC@) {
            Err(ConfigError::MalformedWire)
        } else if wire::u16_at(signed, 8) != FORMAT_VERSION {
            Err(ConfigError::UnsupportedVersion(wire::u16_at(signed, 8)))
        } else {
            p_fields(signed.subrange(10, n), FORMAT_VERSION, signed, wire::array_at(b, n))
        }
    }
}

/// Whether a key wrap keeps to the bounds.
pub open spec fn wrap_ok(w: Wrap) -> bool {
    &&& 0 < w.encapsulated_key.len() <= MAX_WRAP_PART
    &&& 0 < w.ciphertext.len() <= MAX_WRAP_PART
}

/// Whether an envelope keeps to the bounds, and was signed as it is.
pub open spec fn envelope_ok(e: Envelope) -> bool {
    &&& e.format_version == FORMAT_VERSION
    &&& e.ciphertext.len() <= MAX_CIPHERTEXT
    &&& 0 < e.wraps.len() <= MAX_KEY_WRAPS
    &&& forall|i: int| 0 <= i < e.wraps.len() ==> wrap_ok(#[trigger] e.wraps[i])
    &&& e.signed == unsigned_bytes(e)
}

/// What is signed does not depend on what was signed before, or on the signature.
pub proof fn lemma_unsigned_ignores_signature(a: Envelope, b: Envelope)
    requires
        b == (Envelope { signed: b.signed, signature: b.signature, ..a }),
    ensures
        unsigned_bytes(a) == unsigned_bytes(b),
{
}

proof fn lemma_part_round_trip(part: Seq<u8>, rest: Seq<u8>)
    requires
        0 < part.len() <= MAX_WRAP_PART,
    ensures
        p_part(wire::be(part.len(), 2) + (part + rest)) == Ok::<(Seq<u8>, Seq<u8>), ConfigError>(
            (part, rest),
        ),
{
    wire::lemma_take_u16(part.len() as u16, part + rest);
    wire::lemma_take_bytes(part, rest);
}

proof fn lemma_wrap_round_trip(w: Wrap, rest: Seq<u8>)
    requires
        wrap_ok(w),
    ensures
        p_wrap(wrap_bytes(w) + rest) == Ok::<(Wrap, Seq<u8>), ConfigError>((w, rest)),
{
    let n = wire::be(w.ciphertext.len(), 2);
    let second = n + w.ciphertext;
    wire::lemma_assoc(
        wire::be(w.encapsulated_key.len(), 2),
        w.encapsulated_key + second,
        rest,
    );
    wire::lemma_assoc(w.encapsulated_key, second, rest);
    wire::lemma_assoc(n, w.ciphertext, rest);
    lemma_part_round_trip(w.encapsulated_key, second + rest);
    lemma_part_round_trip(w.ciphertext, rest);
}

proof fn lemma_wrap_canonical(r: Seq<u8>)
    ensures
        p_wrap(r) matches Ok((w, rest)) ==> wrap_ok(w) && r == wrap_bytes(w) + rest,
{
    if let Ok((w, rest)) = p_wrap(r) {
        let r1 = p_part(r)->Ok_0.1;
        let n = wire::be(w.ciphertext.len(), 2);
        let second = n + w.ciphertext;
        wire::lemma_taken(r);
        wire::lemma_taken_bytes(wire::take_u16(r)->Some_0.1, w.encapsulated_key.len() as int);
        wire::lemma_taken(r1);
        wire::lemma_taken_bytes(wire::take_u16(r1)->Some_0.1, w.ciphertext.len() as int);
        wire::lemma_assoc(n, w.ciphertext, rest);
        wire::lemma_assoc(w.encapsulated_key, second, rest);
        wire::lemma_assoc(
            wire::be(w.encapsulated_key.len(), 2),
            w.encapsulated_key + second,
            rest,
        );
    }
}

/// The wraps that were read keep to the bounds.
proof fn lemma_wraps_ok(r: Seq<u8>, n: nat)
    ensures
        wire::p_items(wrap_dec(), r, n) matches Ok((s, rest)) ==> forall|i: int|
            0 <= i < s.len() ==> wrap_ok(#[trigger] s[i]),
    decreases n,
{
    if n > 0 {
        lemma_wraps_ok(r, (n - 1) as nat);
        if wire::p_items(wrap_dec(), r, (n - 1) as nat) is Ok {
            lemma_wrap_canonical(wire::p_items(wrap_dec(), r, (n - 1) as nat)->Ok_0.1);
        }
    }
}

/// The fields of fixed length, as they are written.
spec fn head_bytes(e: Envelope) -> Seq<u8> {
    e.network_id@ + wire::be(e.epoch as nat, 8) + wire::be(e.revision as nat, 8) + e.previous_hash@
        + e.payload_hash@ + e.nonce@
}

proof fn lemma_head_split(e: Envelope)
    ensures
        head_bytes(e).len() == ENVELOPE_HEAD_LEN,
        unsigned_bytes(e) == ENVELOPE_MAGIC@ + (wire::be(e.format_version as nat, 2) + (head_bytes(e)
            + body_bytes(e))),
{
    wire::lemma_be_len(e.epoch as nat, 8);
    wire::lemma_be_len(e.revision as nat, 8);
    let b = body_bytes(e);
    wire::lemma_assoc(e.payload_hash@, e.nonce@, b);
    assert(head_bytes(e) + b =~= e.network_id@ + (wire::be(e.epoch as nat, 8) + (wire::be(
        e.revision as nat,
        8,
    ) + (e.previous_hash@ + (e.payload_hash@ + (e.nonce@ + b))))));
}

proof fn lemma_head_round_trip(e: Envelope, rest: Seq<u8>)
    ensures
        p_head(head_bytes(e) + rest) == Some(
            (
                Head {
                    network_id: e.network_id,
                    epoch: e.epoch,
                    revision: e.revision,
                    previous_hash: e.previous_hash,
                    payload_hash: e.payload_hash,
                    nonce: e.nonce,
                },
                rest,
            ),
        ),
{
    let r = head_bytes(e) + rest;
    wire::lemma_pow256_values();
    wire::lemma_from_be_of_be(e.epoch as nat, 8);
    wire::lemma_from_be_of_be(e.revision as nat, 8);
    wire::lemma_array_of(e.network_id.0);
    wire::lemma_array_of(e.previous_hash);
    wire::lemma_array_of(e.payload_hash);
    wire::lemma_array_of(e.nonce);
    assert(r.subrange(0, 32) =~= e.network_id@);
    assert(r.subrange(32, 40) =~= wire::be(e.epoch as nat, 8));
    assert(r.subrange(40, 48) =~= wire::be(e.revision as nat, 8));
    assert(r.subrange(48, 80) =~= e.previous_hash@);
    assert(r.subrange(80, 112) =~= e.payload_hash@);
    assert(r.subrange(112, 136) =~= e.nonce@);
    assert(r.subrange(136, r.len() as int) =~= rest);
}

proof fn lemma_head_canonical(r: Seq<u8>, e: Envelope)
    requires
        p_head(r) matches Some((head, rest)) && e.network_id == head.network_id && e.epoch
            == head.epoch && e.revision == head.revision && e.previous_hash == head.previous_hash
            && e.payload_hash == head.payload_hash && e.nonce == head.nonce,
    ensures
        r == head_bytes(e) + p_head(r)->Some_0.1,
{
    wire::lemma_pow256_values();
    wire::lemma_array_exists::<32>(r.subrange(0, 32));
    wire::lemma_be_of_from_be(r.subrange(32, 40));
    wire::lemma_be_of_from_be(r.subrange(40, 48));
    wire::lemma_array_exists::<32>(r.subrange(48, 80));
    wire::lemma_array_exists::<32>(r.subrange(80, 112));
    wire::lemma_array_exists::<24>(r.subrange(112, 136));
    assert(r =~= r.subrange(0, 32) + r.subrange(32, 40) + r.subrange(40, 48) + r.subrange(48, 80)
        + r.subrange(80, 112) + r.subrange(112, 136) + r.subrange(136, r.len() as int));
}

proof fn lemma_body_round_trip(e: Envelope)
    requires
        envelope_ok(e),
    ensures
        p_ciphertext(body_bytes(e)) == Ok::<(Seq<u8>, Seq<u8>), ConfigError>(
            (e.ciphertext, recipients_bytes(e)),
        ),
        p_wraps(recipients_bytes(e)) == Ok::<(Seq<Wrap>, Seq<u8>), ConfigError>(
            (e.wraps, e.signer_key_id@),
        ),
{
    wire::lemma_take_u32(e.ciphertext.len() as u32, e.ciphertext + recipients_bytes(e));
    wire::lemma_take_bytes(e.ciphertext, recipients_bytes(e));
    let s = e.wraps;
    wire::lemma_take_u16(
        s.len() as u16,
        wire::items_bytes(wrap_enc(), s) + e.signer_key_id@,
    );
    assert forall|i: int, tail: Seq<u8>| 0 <= i < s.len() implies wrap_dec()(
        #[trigger] (wrap_enc()(s[i]) + tail),
    ) == Ok::<(Wrap, Seq<u8>), ConfigError>((s[i], tail)) by {
        lemma_wrap_round_trip(s[i], tail);
    }
    wire::lemma_items_round_trip(wrap_enc(), wrap_dec(), s, e.signer_key_id@);
}

/// An envelope that keeps to the bounds is read back from its bytes unchanged.
pub proof fn law_envelope_round_trip(e: Envelope)
    requires
        envelope_ok(e),
    ensures
        read_envelope(envelope_bytes(e)) == Ok::<Envelope, ConfigError>(e),
{
    reveal(read_envelope);
    let b = envelope_bytes(e);
    let n = b.len() - ENVELOPE_SIGNATURE_LEN;
    let version = wire::be(e.format_version as nat, 2);
    let fields = head_bytes(e) + body_bytes(e);
    lemma_head_split(e);
    lemma_head_round_trip(e, body_bytes(e));
    lemma_body_round_trip(e);
    wire::lemma_array_of(e.signature);
    wire::lemma_array_of(e.signer_key_id);
    wire::lemma_pow256_values();
    wire::lemma_from_be_of_be(e.format_version as nat, 2);
    assert(b.subrange(0, n) =~= e.signed);
    assert(b.subrange(n, b.len() as int) =~= e.signature@);
    assert(e.signed.subrange(0, 8) =~= ENVELOPE_MAGIC@);
    assert(e.signed.subrange(8, 10) =~= version);
    assert(e.signed.subrange(10, n) =~= fields);
}

/// Key wraps that were read are in bounds, and are written as they were read.
proof fn lemma_wraps_canonical(r: Seq<u8>)
    requires
        p_wraps(r) is Ok,
    ensures
        ({
            let (wraps, rest) = p_wraps(r)->Ok_0;
            &&& r == wire::be(wraps.len(), 2) + (wire::items_bytes(wrap_enc(), wraps) + rest)
            &&& 0 < wraps.len() <= MAX_KEY_WRAPS
            &&& forall|i: int| 0 <= i < wraps.len() ==> wrap_ok(#[trigger] wraps[i])
        }),
{
    wire::lemma_taken(r);
    let (n, items) = wire::take_u16(r)->Some_0;
    assert forall|r: Seq<u8>| #[trigger] wrap_dec()(r) is Ok implies r == wrap_enc()(
        wrap_dec()(r)->Ok_0.0,
    ) + wrap_dec()(r)->Ok_0.1 by {
        lemma_wrap_canonical(r);
    }
    wire::lemma_items_canonical(wrap_enc(), wrap_dec(), items, n as nat);
    lemma_wraps_ok(items, n as nat);
}

/// A ciphertext that was read is in bounds, and is written as it was read.
proof fn lemma_ciphertext_canonical(r: Seq<u8>)
    requires
        p_ciphertext(r) is Ok,
    ensures
        ({
            let (ciphertext, rest) = p_ciphertext(r)->Ok_0;
            &&& r == wire::be(ciphertext.len(), 4) + (ciphertext + rest)
            &&& ciphertext.len() <= MAX_CIPHERTEXT
        }),
{
    wire::lemma_taken(r);
    let (n, r1) = wire::take_u32(r)->Some_0;
    wire::lemma_taken_bytes(r1, n as int);
}

/// Bytes that are read as an envelope are the bytes of that envelope and of no other: what was
/// signed is the encoding of what was read.
pub proof fn law_envelope_canonical(b: Seq<u8>)
    requires
        read_envelope(b) is Ok,
    ensures
        envelope_ok(read_envelope(b)->Ok_0),
        envelope_bytes(read_envelope(b)->Ok_0) == b,
{
    reveal(read_envelope);
    let e = read_envelope(b)->Ok_0;
    let n = b.len() - ENVELOPE_SIGNATURE_LEN;
    let signed = b.subrange(0, n);
    let r = signed.subrange(10, n);
    let r1 = p_head(r)->Some_0.1;
    let r2 = p_ciphertext(r1)->Ok_0.1;
    let r3 = p_wraps(r2)->Ok_0.1;
    lemma_head_canonical(r, e);
    lemma_head_split(e);
    lemma_ciphertext_canonical(r1);
    lemma_wraps_canonical(r2);
    wire::lemma_array_exists::<16>(r3);
    assert(r2 == recipients_bytes(e));
    assert(r1 == body_bytes(e));
    assert(signed == unsigned_bytes(e)) by {
        wire::lemma_be_of_from_be(signed.subrange(8, 10));
        wire::lemma_pow256_values();
        assert(signed =~= signed.subrange(0, 8) + (signed.subrange(8, 10) + r));
    }
    wire::lemma_array_exists::<64>(b.subrange(n, b.len() as int));
    assert(b =~= signed + b.subrange(n, b.len() as int));
}

fn part(cursor: &mut Cursor<'_>) -> (part: Result<Vec<u8>, ConfigError>)
    ensures
        match p_part(old(cursor).rest()) {
            Ok((value, rest)) => part matches Ok(part) && part@ == value && final(cursor).rest()
                == rest,
            Err(reason) => part matches Err(error) && error == reason,
        },
{
    let n: u16 = match cursor.u16() {
        Some(n) => n,
        None => return Err(ConfigError::MalformedWire),
    };
    if n == 0 || n as usize > MAX_WRAP_PART {
        return Err(ConfigError::MalformedWire);
    }
    match cursor.take(n as usize) {
        Some(bytes) => Ok(copy_range(bytes, 0, bytes.len())),
        None => Err(ConfigError::MalformedWire),
    }
}

fn key_wraps(cursor: &mut Cursor<'_>) -> (wraps: Result<Vec<KeyWrap>, ConfigError>)
    ensures
        match p_wraps(old(cursor).rest()) {
            Ok((values, rest)) => wraps matches Ok(wraps) && wrap_views(wraps@) == values
                && final(cursor).rest() == rest,
            Err(reason) => wraps matches Err(error) && error == reason,
        },
{
    let n: u16 = match cursor.u16() {
        Some(n) => n,
        None => return Err(ConfigError::MalformedWire),
    };
    if n == 0 || n as usize > MAX_KEY_WRAPS {
        return Err(ConfigError::InvalidRecipientCount);
    }
    let ghost start = cursor.rest();
    let mut wraps: Vec<KeyWrap> = Vec::new();
    let mut i: u16 = 0;
    assert(wrap_views(wraps@) =~= Seq::<Wrap>::empty());
    while i < n
        invariant
            i <= n,
            wire::p_items(wrap_dec(), start, i as nat) == Ok::<(Seq<Wrap>, Seq<u8>), ConfigError>(
                (wrap_views(wraps@), cursor.rest()),
            ),
            p_wraps(old(cursor).rest()) == wire::p_items(wrap_dec(), start, n as nat),
        decreases n - i,
    {
        let ghost before = wraps@;
        proof {
            if wire::p_items(wrap_dec(), start, (i + 1) as nat) is Err {
                wire::lemma_items_error(wrap_dec(), start, (i + 1) as nat, n as nat);
            }
        }
        let encapsulated_key: Vec<u8> = part(cursor)?;
        let ciphertext: Vec<u8> = part(cursor)?;
        let wrap = KeyWrap { encapsulated_key, ciphertext };
        let ghost value = wrap@;
        wraps.push(wrap);
        assert(wrap_views(wraps@) =~= wrap_views(before).push(value));
        i = i + 1;
    }
    Ok(wraps)
}

fn push_part(out: &mut Vec<u8>, part: &Vec<u8>) -> (pushed: bool)
    ensures
        pushed == (part@.len() <= u16::MAX),
        pushed ==> final(out)@ == old(out)@ + (wire::be(part@.len(), 2) + part@),
{
    if part.len() > 0xffff {
        return false;
    }
    push_be(out, part.len() as u64, 2);
    let ghost o1 = out@;
    push_bytes(out, part.as_slice());
    proof {
        wire::lemma_assoc(old(out)@, wire::be(part@.len(), 2), part@);
    }
    true
}

/// Whether the lengths in a key wrap fit their fields.
pub open spec fn wrap_fits(w: Wrap) -> bool {
    w.encapsulated_key.len() <= u16::MAX && w.ciphertext.len() <= u16::MAX
}

/// Whether every length in an envelope fits its field.
pub open spec fn encodable(e: Envelope) -> bool {
    &&& e.ciphertext.len() <= u32::MAX
    &&& e.wraps.len() <= u16::MAX
    &&& forall|i: int| 0 <= i < e.wraps.len() ==> wrap_fits(#[trigger] e.wraps[i])
}

fn push_wraps(out: &mut Vec<u8>, wraps: &Vec<KeyWrap>) -> (pushed: bool)
    ensures
        pushed == (forall|i: int|
            0 <= i < wraps@.len() ==> wrap_fits(#[trigger] wrap_views(wraps@)[i])),
        pushed ==> final(out)@ == old(out)@ + wire::items_bytes(wrap_enc(), wrap_views(wraps@)),
{
    let ghost all = wrap_views(wraps@);
    let mut i: usize = 0;
    assert(all.take(0) =~= Seq::<Wrap>::empty());
    assert(out@ =~= out@ + Seq::<u8>::empty());
    while i < wraps.len()
        invariant
            i <= wraps.len(),
            all == wrap_views(wraps@),
            out@ == old(out)@ + wire::items_bytes(wrap_enc(), all.take(i as int)),
            forall|j: int| 0 <= j < i ==> wrap_fits(#[trigger] all[j]),
        decreases wraps.len() - i,
    {
        let ghost o0 = out@;
        let ghost w = all[i as int];
        if !push_part(out, &wraps[i].encapsulated_key) {
            assert(!wrap_fits(all[i as int]));
            return false;
        }
        if !push_part(out, &wraps[i].ciphertext) {
            assert(!wrap_fits(all[i as int]));
            return false;
        }
        proof {
            let second = wire::be(w.ciphertext.len(), 2) + w.ciphertext;
            let first = wire::be(w.encapsulated_key.len(), 2);
            wire::lemma_assoc(o0, first + w.encapsulated_key, second);
            wire::lemma_assoc(first, w.encapsulated_key, second);
            assert(all.take(i + 1).drop_last() =~= all.take(i as int));
            wire::lemma_assoc(
                old(out)@,
                wire::items_bytes(wrap_enc(), all.take(i as int)),
                wrap_bytes(w),
            );
        }
        i = i + 1;
    }
    proof {
        assert(all.take(i as int) =~= all);
    }
    true
}

impl EncryptedConfigEnvelope {
    /// The fields, as they are signed.
    pub(crate) fn encode_signed_bytes(&self) -> (bytes: Result<Vec<u8>, ConfigError>)
        ensures
            if encodable(self@) {
                bytes matches Ok(bytes) && bytes@ == unsigned_bytes(self@)
            } else {
                bytes matches Err(error) && error == ConfigError::MalformedWire
            },
    {
        if self.ciphertext.len() > 0xffff_ffff || self.member_key_wraps.len() > 0xffff {
            return Err(ConfigError::MalformedWire);
        }
        let ghost e = self@;
        let mut bytes: Vec<u8> = Vec::new();
        push_bytes(&mut bytes, ENVELOPE_MAGIC.as_slice());
        push_be(&mut bytes, self.format_version as u64, 2);
        push_bytes(&mut bytes, self.network_id.0.as_slice());
        push_be(&mut bytes, self.epoch, 8);
        push_be(&mut bytes, self.revision, 8);
        push_bytes(&mut bytes, self.previous_hash.as_slice());
        push_bytes(&mut bytes, self.payload_hash.as_slice());
        push_bytes(&mut bytes, self.nonce.as_slice());
        let ghost o1 = bytes@;
        proof {
            assert(o1 =~= ENVELOPE_MAGIC@ + (wire::be(e.format_version as nat, 2) + head_bytes(e)));
        }
        push_be(&mut bytes, self.ciphertext.len() as u64, 4);
        push_bytes(&mut bytes, self.ciphertext.as_slice());
        push_be(&mut bytes, self.member_key_wraps.len() as u64, 2);
        let ghost o2 = bytes@;
        if !push_wraps(&mut bytes, &self.member_key_wraps) {
            return Err(ConfigError::MalformedWire);
        }
        push_bytes(&mut bytes, self.signer_key_id.as_slice());
        proof {
            let items = wire::items_bytes(wrap_enc(), e.wraps);
            let version = wire::be(e.format_version as nat, 2);
            lemma_head_split(e);
            assert(bytes@ =~= o1 + body_bytes(e));
            assert(o1 + body_bytes(e) =~= ENVELOPE_MAGIC@ + (version + (head_bytes(e)
                + body_bytes(e))));
        }
        Ok(bytes)
    }

    /// Reads an envelope and keeps its exact bytes.
    pub fn from_bytes(bytes: &[u8]) -> (envelope: Result<Self, ConfigError>)
        ensures
            match read_envelope(bytes@) {
                Ok(value) => envelope matches Ok(envelope) && envelope@ == value,
                Err(reason) => envelope matches Err(error) && error == reason,
            },
    {
        proof {
            reveal(read_envelope);
        }
        if bytes.len() < ENVELOPE_SIGNATURE_LEN {
            return Err(ConfigError::MalformedWire);
        }
        let signed_len: usize = bytes.len() - ENVELOPE_SIGNATURE_LEN;
        let signed_bytes: Vec<u8> = copy_range(bytes, 0, signed_len);
        let signature: [u8; 64] = read_array::<64>(bytes, signed_len);
        if signed_len < 10 || !starts_at(
            signed_bytes.as_slice(),
            0,
            ENVELOPE_MAGIC.as_slice(),
        ) {
            return Err(ConfigError::MalformedWire);
        }
        let format_version: u16 = read_u16(signed_bytes.as_slice(), 8);
        if format_version != FORMAT_VERSION {
            return Err(ConfigError::UnsupportedVersion(format_version));
        }
        let fields: Vec<u8> = copy_range(signed_bytes.as_slice(), 10, signed_len);
        Self::decode(fields.as_slice(), signed_bytes, signature)
    }

    /// Reads what follows the version.
    fn decode(fields: &[u8], signed_bytes: Vec<u8>, signature: [u8; 64]) -> (envelope: Result<
        Self,
        ConfigError,
    >)
        ensures
            match p_fields(fields@, FORMAT_VERSION, signed_bytes@, signature) {
                Ok(value) => envelope matches Ok(envelope) && envelope@ == value,
                Err(reason) => envelope matches Err(error) && error == reason,
            },
    {
        if fields.len() < ENVELOPE_HEAD_LEN {
            return Err(ConfigError::MalformedWire);
        }
        let mut cursor: Cursor = Cursor::new(fields);
        let _ = cursor.take(ENVELOPE_HEAD_LEN);
        let n: u32 = match cursor.u32() {
            Some(n) => n,
            None => return Err(ConfigError::MalformedWire),
        };
        if n as usize > MAX_CIPHERTEXT {
            return Err(ConfigError::PayloadTooLarge);
        }
        let ciphertext: Vec<u8> = match cursor.take(n as usize) {
            Some(bytes) => copy_range(bytes, 0, bytes.len()),
            None => return Err(ConfigError::MalformedWire),
        };
        let member_key_wraps: Vec<KeyWrap> = key_wraps(&mut cursor)?;
        if cursor.remaining() != 16 {
            return Err(ConfigError::MalformedWire);
        }
        let ghost tail = cursor.rest();
        let signer_key_id: [u8; 16] = match cursor.array::<16>() {
            Some(id) => id,
            None => return Err(ConfigError::MalformedWire),
        };
        assert(tail.subrange(0, 16) =~= tail);
        assert(ciphertext@ == p_ciphertext(p_head(fields@)->Some_0.1)->Ok_0.0);
        Ok(
            EncryptedConfigEnvelope {
                format_version: FORMAT_VERSION,
                network_id: NetworkId(read_array::<32>(fields, 0)),
                epoch: read_u64(fields, 32),
                revision: read_u64(fields, 40),
                previous_hash: read_array::<32>(fields, 48),
                payload_hash: read_array::<32>(fields, 80),
                nonce: read_array::<24>(fields, 112),
                ciphertext,
                member_key_wraps,
                signer_key_id,
                signed_bytes,
                signature,
            },
        )
    }

    /// The exact bytes of the envelope.
    pub fn to_bytes(&self) -> (bytes: Vec<u8>)
        ensures
            bytes@ == envelope_bytes(self@),
    {
        let mut bytes: Vec<u8> = copy_range(self.signed_bytes.as_slice(), 0, self.signed_bytes.len());
        push_bytes(&mut bytes, self.signature.as_slice());
        assert(self.signed_bytes@.subrange(0, self.signed_bytes@.len() as int)
            =~= self.signed_bytes@);
        bytes
    }

    /// The hash of the exact bytes, by which the next revision names this one.
    pub fn envelope_hash(&self) -> (digest: [u8; 32])
        ensures
            digest == envelope_digest(self@),
    {
        let digest: [u8; 32] = hash(self.to_bytes().as_slice());
        proof {
            wire::lemma_array_of(digest);
        }
        digest
    }
}

} // verus!
