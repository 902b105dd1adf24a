//! Sealing configurations for the members of a network, and opening them again.
use crate::config::chain;
use crate::config::chain::{validate_chain, ChainExpectation, ConfigHead};
use crate::config::envelope;
use crate::config::envelope::{
    ConfigError, EncryptedConfigEnvelope, Envelope, KeyWrap, Wrap, ENVELOPE_AAD_MAGIC, FORMAT_VERSION,
    MAX_CONFIG_PLAINTEXT, MAX_KEY_WRAPS,
};
use crate::config::snapshot;
use crate::config::snapshot::{Config, NetworkConfigV1, SnapshotError};
use crate::config::validate;
use crate::config::validate::ValidatedNetworkConfig;
use crate::crypto::admin;
use crate::crypto::admin::{AdminCertificatePayload, VerifiedAdmin, ADMIN_PERMISSION_CONFIG_WRITE};
use crate::crypto::keys;
use crate::crypto::keys::{CertificateError, NetworkRootKey, NetworkRootPublic, OnlineAdminKey};
use crate::crypto::member;
use crate::crypto::member::MemberCertificate;
use crate::identifiers::NetworkId;
use crate::outside;
use crate::outside::{
    hash, hpke_generate, hpke_open, hpke_public_key, hpke_seal, open_xchacha, random_array,
    seal_xchacha,
};
use crate::wire;
use crate::wire::{arrays_equal, push_be, push_bytes, read_array, read_u64};
use vstd::prelude::*;

verus! {

/// What the wrapped content keys are for.
pub const HPKE_INFO: [u8; 25] = [
    119,
    101,
    97,
    118,
    101,
    114,
    46,
    99,
    111,
    110,
    102,
    105,
    103,
    45,
    107,
    101,
    121,
    45,
    119,
    114,
    97,
    112,
    46,
    118,
    49,
];

/// The key to which content keys are sealed for one member. Its view is the secret.
pub struct MemberEncryptionKeypair {
    secret: [u8; 32],
    public: [u8; 32],
}

impl View for MemberEncryptionKeypair {
    type V = Seq<u8>;

    closed spec fn view(&self) -> Seq<u8> {
        self.secret@
    }
}

impl MemberEncryptionKeypair {
    /// The public half belongs to the secret half.
    #[verifier::type_invariant]
    spec fn well_formed(self) -> bool {
        self.public@ == outside::hpke_public(self.secret@) && outside::hpke_usable(self.public@)
    }

    /// A key from the system's randomness. Which key it is rests on chance.
    pub fn generate() -> (key: Result<Self, ConfigError>)
        ensures
            key is Ok,
    {
        let (secret, public) = hpke_generate();
        Ok(MemberEncryptionKeypair { secret, public })
    }

    /// The key with this secret half.
    pub fn from_secret_bytes(secret: [u8; 32]) -> (key: Result<Self, ConfigError>)
        ensures
            key matches Ok(key) && key@ == secret@,
    {
        match hpke_public_key(&secret) {
            Some(public) => Ok(MemberEncryptionKeypair { secret, public }),
            None => Err(ConfigError::InvalidMemberKey),
        }
    }

    pub fn secret_bytes(&self) -> (secret: [u8; 32])
        ensures
            secret@ == self@,
    {
        self.secret
    }

    pub fn public_bytes(&self) -> (public: [u8; 32])
        ensures
            public@ == outside::hpke_public(self@),
            outside::hpke_usable(public@),
    {
        proof {
            use_type_invariant(self);
        }
        self.public
    }
}

/// What the ciphertext and the wrapped keys of an envelope are bound to: its place in the chain
/// of its network, and the hash of its payload.
pub open spec fn aad_bytes(
    network: NetworkId,
    epoch: u64,
    revision: u64,
    previous_hash: [u8; 32],
    payload_hash: [u8; 32],
) -> Seq<u8> {
    ENVELOPE_AAD_MAGIC@ + network@ + wire::be(epoch as nat, 8) + wire::be(revision as nat, 8)
        + previous_hash@ + payload_hash@
}

/// What the ciphertext of this envelope is bound to.
pub open spec fn aad_of(e: Envelope) -> Seq<u8> {
    aad_bytes(e.network_id, e.epoch, e.revision, e.previous_hash, e.payload_hash)
}

fn envelope_aad(
    network_id: NetworkId,
    epoch: u64,
    revision: u64,
    previous_hash: [u8; 32],
    payload_hash: [u8; 32],
) -> (aad: Vec<u8>)
    ensures
        aad@ == aad_bytes(network_id, epoch, revision, previous_hash, payload_hash),
{
    let mut aad: Vec<u8> = Vec::new();
    push_bytes(&mut aad, ENVELOPE_AAD_MAGIC.as_slice());
    push_bytes(&mut aad, network_id.0.as_slice());
    push_be(&mut aad, epoch, 8);
    push_be(&mut aad, revision, 8);
    push_bytes(&mut aad, previous_hash.as_slice());
    push_bytes(&mut aad, payload_hash.as_slice());
    aad
}

/// The content key that a wrap holds for the owner of a secret: what opens, if it is a key.
pub open spec fn unwrapped(secret: Seq<u8>, w: Wrap, aad: Seq<u8>) -> Option<Seq<u8>> {
    match outside::hpke_opened(secret, w.encapsulated_key, HPKE_INFO@, w.ciphertext, aad) {
        Some(key) => if key.len() == 32 {
            Some(key)
        } else {
            None
        },
        None => None,
    }
}

/// The content key that the owner of a secret finds: the first that opens.
pub open spec fn content_key(secret: Seq<u8>, wraps: Seq<Wrap>, aad: Seq<u8>) -> Option<Seq<u8>>
    decreases wraps.len(),
{
    if wraps.len() == 0 {
        None
    } else {
        match unwrapped(secret, wraps[0], aad) {
            Some(key) => Some(key),
            None => content_key(secret, wraps.skip(1), aad),
        }
    }
}

/// What was opened: the payload, and the head that the envelope makes.
#[derive(Debug, PartialEq, Eq)]
pub struct OpenedConfig {
    pub plaintext: Vec<u8>,
    pub head: ConfigHead,
}

/// The contents of what was opened.
pub struct Opened {
    pub plaintext: Seq<u8>,
    pub head: ConfigHead,
}

impl View for OpenedConfig {
    type V = Opened;

    open spec fn view(&self) -> Opened {
        Opened { plaintext: self.plaintext@, head: self.head }
    }
}

impl Clone for OpenedConfig {
    fn clone(&self) -> (copy: Self)
        ensures
            copy@ == self@,
    {
        let plaintext: Vec<u8> = self.plaintext.clone();
        assert(plaintext@ =~= self.plaintext@);
        OpenedConfig { plaintext, head: self.head }
    }
}

/// A configuration that was opened and accepted.
#[derive(PartialEq, Eq)]
pub struct OpenedNetworkConfig {
    pub config: ValidatedNetworkConfig,
    pub head: ConfigHead,
}

/// The contents of a configuration that was opened.
pub struct Unsealed {
    pub config: Config,
    pub head: ConfigHead,
}

impl View for OpenedNetworkConfig {
    type V = Unsealed;

    open spec fn view(&self) -> Unsealed {
        Unsealed { config: self.config@, head: self.head }
    }
}

impl Clone for OpenedNetworkConfig {
    fn clone(&self) -> (copy: Self)
        ensures
            copy@ == self@,
    {
        OpenedNetworkConfig { config: self.config.clone(), head: self.head }
    }
}

/// What becomes of an envelope whose signature holds: it must stand where it is expected, hold a
/// key for the reader, decrypt, and hold the payload that was signed for.
pub open spec fn payload_verdict(e: Envelope, secret: Seq<u8>, expected: ChainExpectation) -> Result<
    Opened,
    ConfigError,
> {
    if !chain::chain_ok(e, expected) {
        Err(ConfigError::ChainMismatch)
    } else {
        match content_key(secret, e.wraps, aad_of(e)) {
            None => Err(ConfigError::NoRecipientWrap),
            Some(key) => match outside::xchacha_opened(key, e.nonce@, e.ciphertext, aad_of(e)) {
                None => Err(ConfigError::DecryptionFailed),
                Some(plaintext) => if outside::blake3_hash(plaintext) != e.payload_hash@ {
                    Err(ConfigError::PayloadHashMismatch)
                } else {
                    Ok(Opened { plaintext, head: chain::head_of(e) })
                },
            },
        }
    }
}

/// What becomes of an envelope that must be signed by the root key `root`.
pub open spec fn open_verdict(
    e: Envelope,
    root: Seq<u8>,
    network: NetworkId,
    secret: Seq<u8>,
    expected: ChainExpectation,
) -> Result<Opened, ConfigError> {
    if e.network_id != network || keys::network_id_of(root) != network {
        Err(ConfigError::WrongNetwork)
    } else if e.signer_key_id != keys::root_key_id(root) {
        Err(ConfigError::WrongSigner)
    } else if !outside::ed25519_verifies(root, e.signed, e.signature@) {
        Err(ConfigError::Signature(CertificateError::InvalidSignature))
    } else {
        payload_verdict(e, secret, expected)
    }
}

/// What becomes of an opened payload: it must be a configuration with the envelope's own place in
/// the chain, and be accepted.
pub open spec fn decoded_verdict(e: Envelope, root: Seq<u8>, opened: Opened, now_ms: u64) -> Result<
    Unsealed,
    ConfigError,
> {
    match snapshot::read_config(opened.plaintext) {
        Err(reason) => Err(ConfigError::Snapshot(reason)),
        Ok(c) => if c.network_id != e.network_id || c.epoch != e.epoch || c.revision != e.revision
            || c.previous_hash != e.previous_hash {
            Err(ConfigError::EnvelopePayloadMismatch)
        } else {
            match validate::config_verdict(c, root, e.network_id, now_ms) {
                Err(reason) => Err(ConfigError::Snapshot(reason)),
                Ok(()) => Ok(Unsealed { config: c, head: opened.head }),
            }
        },
    }
}

/// What becomes of a configuration that must be signed by the root key.
pub open spec fn open_config_verdict(
    e: Envelope,
    root: Seq<u8>,
    network: NetworkId,
    secret: Seq<u8>,
    expected: ChainExpectation,
    now_ms: u64,
) -> Result<Unsealed, ConfigError> {
    match open_verdict(e, root, network, secret, expected) {
        Err(reason) => Err(reason),
        Ok(opened) => decoded_verdict(e, root, opened, now_ms),
    }
}

/// What becomes of a configuration that must be signed by an administrator.
pub open spec fn admin_open_verdict(
    e: Envelope,
    root: Seq<u8>,
    signer: AdminCertificatePayload,
    secret: Seq<u8>,
    expected: ChainExpectation,
    now_ms: u64,
) -> Result<Unsealed, ConfigError> {
    if keys::network_id_of(root) != e.network_id || signer.network_id != e.network_id {
        Err(ConfigError::WrongNetwork)
    } else if e.signer_key_id != signer.key_id {
        Err(ConfigError::WrongSigner)
    } else if !admin::permits(signer.permissions, ADMIN_PERMISSION_CONFIG_WRITE) {
        Err(ConfigError::PermissionDenied)
    } else if !outside::ed25519_verifies(signer.public_key@, e.signed, e.signature@) {
        Err(ConfigError::Signature(CertificateError::InvalidSignature))
    } else {
        match payload_verdict(e, secret, expected) {
            Err(reason) => Err(reason),
            Ok(opened) => decoded_verdict(e, root, opened, now_ms),
        }
    }
}

/// What becomes of the envelope that follows a configuration in force: an administrator of that
/// configuration must have signed it.
pub open spec fn next_verdict(
    e: Envelope,
    root: Seq<u8>,
    current: Config,
    secret: Seq<u8>,
    head: ConfigHead,
    now_ms: u64,
) -> Result<Unsealed, ConfigError> {
    if keys::network_id_of(root) != e.network_id || current.network_id != e.network_id {
        Err(ConfigError::WrongNetwork)
    } else {
        match validate::admin_lookup(
            validate::context(current, root, current.network_id, now_ms),
            current.admin_keys,
            e.signer_key_id,
        ) {
            Err(reason) => Err(ConfigError::Snapshot(reason)),
            Ok(signer) => admin_open_verdict(
                e,
                root,
                signer,
                secret,
                ChainExpectation::Next(head),
                now_ms,
            ),
        }
    }
}

/// Opens one wrap.
fn unwrap_content_key(recipient: &MemberEncryptionKeypair, wrap: &KeyWrap, aad: &Vec<u8>) -> (key: Option<
    [u8; 32],
>)
    ensures
        match unwrapped(recipient@, wrap@, aad@) {
            Some(bytes) => key matches Some(key) && key@ == bytes,
            None => key is None,
        },
{
    match hpke_open(
        &recipient.secret,
        wrap.encapsulated_key.as_slice(),
        HPKE_INFO.as_slice(),
        wrap.ciphertext.as_slice(),
        aad.as_slice(),
    ) {
        Some(bytes) => {
            if bytes.len() == 32 {
                let key: [u8; 32] = read_array::<32>(bytes.as_slice(), 0);
                proof {
                    wire::lemma_array_exists::<32>(bytes@);
                    assert(bytes@.subrange(0, 32) =~= bytes@);
                }
                Some(key)
            } else {
                None
            }
        },
        None => None,
    }
}

impl EncryptedConfigEnvelope {
    /// Opens an envelope that the root signed.
    pub fn open(
        &self,
        root: &NetworkRootPublic,
        expected_network: NetworkId,
        recipient: &MemberEncryptionKeypair,
        chain: ChainExpectation,
    ) -> (opened: Result<OpenedConfig, ConfigError>)
        ensures
            match open_verdict(self@, root@, expected_network, recipient@, chain) {
                Ok(value) => opened matches Ok(opened) && opened@ == value,
                Err(reason) => opened matches Err(error) && error == reason,
            },
    {
        proof {
            envelope::lemma_envelope_fields(self);
        }
        if self.network_id != expected_network || root.network_id() != expected_network {
            return Err(ConfigError::WrongNetwork);
        }
        if !arrays_equal(&self.signer_key_id, &root.key_id()) {
            return Err(ConfigError::WrongSigner);
        }
        match root.verify_bytes(self.signed_bytes.as_slice(), &self.signature) {
            Ok(()) => {},
            Err(error) => return Err(ConfigError::Signature(error)),
        }
        self.open_after_verified_signature(recipient, chain)
    }

    /// Opens the envelope that follows a configuration in force.
    pub fn open_next_config(
        &self,
        root: &NetworkRootPublic,
        current_config: &ValidatedNetworkConfig,
        recipient: &MemberEncryptionKeypair,
        current_head: ConfigHead,
        now_ms: u64,
    ) -> (opened: Result<OpenedNetworkConfig, ConfigError>)
        ensures
            match next_verdict(
                self@,
                root@,
                current_config@,
                recipient@,
                current_head,
                now_ms,
            ) {
                Ok(value) => opened matches Ok(opened) && opened@ == value,
                Err(reason) => opened matches Err(error) && error == reason,
            },
    {
        proof {
            envelope::lemma_envelope_fields(self);
        }
        if root.network_id() != self.network_id || current_config.as_config().network_id
            != self.network_id {
            return Err(ConfigError::WrongNetwork);
        }
        let signer: VerifiedAdmin = match current_config.verified_admin(
            root,
            self.signer_key_id,
            now_ms,
        ) {
            Ok(signer) => signer,
            Err(error) => return Err(ConfigError::Snapshot(error)),
        };
        self.open_config_with_verified_admin(
            root,
            &signer,
            recipient,
            ChainExpectation::Next(current_head),
            now_ms,
        )
    }

    /// Opens a configuration that an administrator signed.
    pub fn open_config_with_verified_admin(
        &self,
        root: &NetworkRootPublic,
        admin: &VerifiedAdmin,
        recipient: &MemberEncryptionKeypair,
        chain: ChainExpectation,
        now_ms: u64,
    ) -> (opened: Result<OpenedNetworkConfig, ConfigError>)
        ensures
            match admin_open_verdict(self@, root@, admin@, recipient@, chain, now_ms) {
                Ok(value) => opened matches Ok(opened) && opened@ == value,
                Err(reason) => opened matches Err(error) && error == reason,
            },
    {
        proof {
            envelope::lemma_envelope_fields(self);
        }
        if root.network_id() != self.network_id || admin.payload().network_id != self.network_id {
            return Err(ConfigError::WrongNetwork);
        }
        if !arrays_equal(&self.signer_key_id, &admin.payload().key_id) {
            return Err(ConfigError::WrongSigner);
        }
        if admin.payload().permissions & ADMIN_PERMISSION_CONFIG_WRITE == 0 {
            return Err(ConfigError::PermissionDenied);
        }
        match admin.verify_bytes(self.signed_bytes.as_slice(), &self.signature) {
            Ok(()) => {},
            Err(error) => return Err(ConfigError::Signature(error)),
        }
        let opened: OpenedConfig = self.open_after_verified_signature(recipient, chain)?;
        self.decode_and_validate_opened(root, opened, now_ms)
    }

    /// The content key that a member finds.
    fn find_content_key(&self, recipient: &MemberEncryptionKeypair, aad: &Vec<u8>) -> (key: Option<
        [u8; 32],
    >)
        ensures
            match content_key(recipient@, self@.wraps, aad@) {
                Some(bytes) => key matches Some(key) && key@ == bytes,
                None => key is None,
            },
    {
        proof {
            envelope::lemma_envelope_fields(self);
        }
        let ghost all = self@.wraps;
        let mut i: usize = 0;
        assert(all.skip(0) =~= all);
        while i < self.member_key_wraps.len()
            invariant
                i <= self.member_key_wraps.len(),
                all == self@.wraps,
                all == envelope::wrap_views(self.member_key_wraps@),
                content_key(recipient@, all, aad@) == content_key(
                    recipient@,
                    all.skip(i as int),
                    aad@,
                ),
            decreases self.member_key_wraps.len() - i,
        {
            proof {
                assert(all.skip(i as int)[0] == self.member_key_wraps@[i as int]@);
                assert(all.skip(i as int).skip(1) =~= all.skip(i + 1));
            }
            let key: Option<[u8; 32]> = unwrap_content_key(recipient, &self.member_key_wraps[i], aad);
            if key.is_some() {
                return key;
            }
            i = i + 1;
        }
        None
    }

    fn open_after_verified_signature(
        &self,
        recipient: &MemberEncryptionKeypair,
        chain: ChainExpectation,
    ) -> (opened: Result<OpenedConfig, ConfigError>)
        ensures
            match payload_verdict(self@, recipient@, chain) {
                Ok(value) => opened matches Ok(opened) && opened@ == value,
                Err(reason) => opened matches Err(error) && error == reason,
            },
    {
        proof {
            envelope::lemma_envelope_fields(self);
        }
        validate_chain(self, chain)?;
        let aad: Vec<u8> = envelope_aad(
            self.network_id,
            self.epoch,
            self.revision,
            self.previous_hash,
            self.payload_hash,
        );
        let key: [u8; 32] = match self.find_content_key(recipient, &aad) {
            Some(key) => key,
            None => return Err(ConfigError::NoRecipientWrap),
        };
        let plaintext: Vec<u8> = match open_xchacha(
            &key,
            &self.nonce,
            self.ciphertext.as_slice(),
            aad.as_slice(),
        ) {
            Some(plaintext) => plaintext,
            None => return Err(ConfigError::DecryptionFailed),
        };
        let digest: [u8; 32] = hash(plaintext.as_slice());
        if !arrays_equal(&digest, &self.payload_hash) {
            proof {
                if digest@ == self.payload_hash@ {
                    wire::lemma_array_ext(digest, self.payload_hash);
                }
            }
            return Err(ConfigError::PayloadHashMismatch);
        }
        Ok(
            OpenedConfig {
                plaintext,
                head: ConfigHead {
                    epoch: self.epoch,
                    revision: self.revision,
                    hash: self.envelope_hash(),
                },
            },
        )
    }

    /// Opens a configuration that the root signed.
    pub fn open_config(
        &self,
        root: &NetworkRootPublic,
        expected_network: NetworkId,
        recipient: &MemberEncryptionKeypair,
        chain: ChainExpectation,
        now_ms: u64,
    ) -> (opened: Result<OpenedNetworkConfig, ConfigError>)
        ensures
            match open_config_verdict(
                self@,
                root@,
                expected_network,
                recipient@,
                chain,
                now_ms,
            ) {
                Ok(value) => opened matches Ok(opened) && opened@ == value,
                Err(reason) => opened matches Err(error) && error == reason,
            },
    {
        let opened: OpenedConfig = self.open(root, expected_network, recipient, chain)?;
        self.decode_and_validate_opened(root, opened, now_ms)
    }

    fn decode_and_validate_opened(
        &self,
        root: &NetworkRootPublic,
        opened: OpenedConfig,
        now_ms: u64,
    ) -> (decoded: Result<OpenedNetworkConfig, ConfigError>)
        ensures
            match decoded_verdict(self@, root@, opened@, now_ms) {
                Ok(value) => decoded matches Ok(decoded) && decoded@ == value,
                Err(reason) => decoded matches Err(error) && error == reason,
            },
    {
        proof {
            envelope::lemma_envelope_fields(self);
        }
        let config: NetworkConfigV1 = match NetworkConfigV1::from_bytes(
            opened.plaintext.as_slice(),
        ) {
            Ok(config) => config,
            Err(error) => return Err(ConfigError::Snapshot(error)),
        };
        if config.network_id != self.network_id || config.epoch != self.epoch || config.revision
            != self.revision || !arrays_equal(&config.previous_hash, &self.previous_hash) {
            return Err(ConfigError::EnvelopePayloadMismatch);
        }
        match config.validate(root, self.network_id, now_ms) {
            Ok(config) => Ok(OpenedNetworkConfig { config, head: opened.head }),
            Err(error) => Err(ConfigError::Snapshot(error)),
        }
    }
}

/// Which place a random number picks among the first `index + 1`: the number, least significant
/// byte first, modulo their count.
pub open spec fn picked(random: Seq<u8>, index: nat) -> nat {
    wire::from_be(random.reverse()) % (index + 1)
}

/// The place that a random number picks.
pub fn pick(random: [u8; 8], index: usize) -> (selected: usize)
    requires
        index < usize::MAX,
    ensures
        selected == picked(random@, index as nat),
        selected <= index,
{
    let mut turned: Vec<u8> = Vec::new();
    let mut i: usize = 8;
    while i > 0
        invariant
            i <= 8,
            turned@ =~= Seq::new((8 - i) as nat, |j: int| random@[7 - j]),
        decreases i,
    {
        i = i - 1;
        turned.push(random[i]);
    }
    assert(turned@ =~= random@.reverse());
    let number: u64 = read_u64(turned.as_slice(), 0);
    proof {
        assert(turned@.subrange(0, 8) =~= turned@);
        wire::lemma_pow256_values();
        wire::lemma_be_of_from_be(turned@);
        vstd::arithmetic::div_mod::lemma_mod_bound(number as int, index + 1);
    }
    (number % (index as u64 + 1)) as usize
}

/// Exchanges two items.
fn swap_items<T>(items: &mut Vec<T>, a: usize, b: usize)
    requires
        a <= b < old(items)@.len(),
    ensures
        final(items)@ == old(items)@.update(b as int, old(items)@[a as int]).update(
            a as int,
            old(items)@[b as int],
        ),
{
    if a < b {
        let second: T = items.remove(b);
        let first: T = items.remove(a);
        items.insert(a, second);
        items.insert(b, first);
    }
    assert(items@ =~= old(items)@.update(b as int, old(items)@[a as int]).update(
        a as int,
        old(items)@[b as int],
    ));
}

proof fn lemma_swap_keeps<T>(s: Seq<T>, a: int, b: int)
    requires
        0 <= a <= b < s.len(),
    ensures
        s.update(b, s[a]).update(a, s[b]).to_multiset() == s.to_multiset(),
{
    vstd::seq_lib::to_multiset_update(s, b, s[a]);
    vstd::seq_lib::to_multiset_update(s.update(b, s[a]), a, s[b]);
    broadcast use vstd::seq_lib::group_to_multiset_ensures;

    assert(s.contains(s[a]) && s.contains(s[b]));
    let m = s.to_multiset();
    assert(m.count(s[a]) > 0 && m.count(s[b]) > 0);
    assert(s.update(b, s[a]).update(a, s[b]).to_multiset() =~= m);
}

/// Puts items in an order that rests on chance. None is lost and none is added.
fn shuffle<T>(items: &mut Vec<T>) -> (shuffled: Result<(), ConfigError>)
    ensures
        final(items)@.to_multiset() == old(items)@.to_multiset(),
        shuffled matches Err(error) ==> error == ConfigError::RandomnessUnavailable,
{
    let mut index: usize = items.len();
    while index > 1
        invariant
            index <= items@.len(),
            items@.to_multiset() == old(items)@.to_multiset(),
        decreases index,
    {
        index = index - 1;
        let random: [u8; 8] = match random_array::<8>() {
            Some(random) => random,
            None => return Err(ConfigError::RandomnessUnavailable),
        };
        let selected: usize = pick(random, index);
        proof {
            lemma_swap_keeps(items@, selected as int, index as int);
        }
        swap_items(items, selected, index);
    }
    Ok(())
}

/// Whether a wrap gives a content key to everyone who holds the secret half of a public key.
pub open spec fn wraps_for(w: Wrap, public: Seq<u8>, key: Seq<u8>, aad: Seq<u8>) -> bool {
    forall|secret: Seq<u8>|
        secret.len() == 32 && #[trigger] outside::hpke_public(secret) == public
            ==> outside::hpke_opened(secret, w.encapsulated_key, HPKE_INFO@, w.ciphertext, aad)
            == Some(key)
}

/// Whether one of several wraps gives a content key to everyone who holds the secret half of a
/// public key.
pub open spec fn any_for(wraps: Seq<Wrap>, public: Seq<u8>, key: Seq<u8>, aad: Seq<u8>) -> bool {
    exists|i: int| 0 <= i < wraps.len() && wraps_for(#[trigger] wraps[i], public, key, aad)
}

/// Whether an envelope holds a payload under a content key that each recipient can find: one wrap
/// for each of them, and no other.
pub open spec fn sealed_under(
    e: Envelope,
    key: Seq<u8>,
    plaintext: Seq<u8>,
    recipients: Seq<[u8; 32]>,
) -> bool {
    &&& key.len() == 32
    &&& e.ciphertext.len() == plaintext.len() + 16
    &&& outside::xchacha_sealed(key, e.nonce@, plaintext, aad_of(e)) == Some(e.ciphertext)
    &&& outside::xchacha_opened(key, e.nonce@, e.ciphertext, aad_of(e)) == Some(plaintext)
    &&& e.wraps.len() == recipients.len()
    &&& forall|j: int|
        0 <= j < recipients.len() ==> any_for(e.wraps, (#[trigger] recipients[j])@, key, aad_of(e))
}

/// Whether an envelope holds a payload that each recipient can open.
pub open spec fn sealed_for(e: Envelope, plaintext: Seq<u8>, recipients: Seq<[u8; 32]>) -> bool {
    exists|key: Seq<u8>| #[trigger] sealed_under(e, key, plaintext, recipients)
}

/// Where in which chain a payload is sealed, and by whom.
pub struct Place {
    pub network: NetworkId,
    pub signer_key_id: [u8; 16],
    pub epoch: u64,
    pub revision: u64,
    pub previous_hash: [u8; 32],
}

/// Whether an envelope stands at a place, holds the hash of a payload, and was signed as it is.
pub open spec fn placed(e: Envelope, place: Place, plaintext: Seq<u8>) -> bool {
    &&& envelope::envelope_ok(e)
    &&& e.network_id == place.network
    &&& e.signer_key_id == place.signer_key_id
    &&& e.epoch == place.epoch
    &&& e.revision == place.revision
    &&& e.previous_hash == place.previous_hash
    &&& e.payload_hash@ == outside::blake3_hash(plaintext)
}

/// Why a payload is not sealed, whatever chance gives: it is too long, or the recipients are too
/// few or too many.
pub open spec fn seal_refusal(plaintext: Seq<u8>, recipients: Seq<[u8; 32]>) -> Option<ConfigError> {
    if plaintext.len() > MAX_CONFIG_PLAINTEXT {
        Some(ConfigError::PayloadTooLarge)
    } else if recipients.len() == 0 || recipients.len() > MAX_KEY_WRAPS {
        Some(ConfigError::InvalidRecipientCount)
    } else {
        None
    }
}

/// Whether a content key can be sealed to every recipient.
pub open spec fn all_usable(recipients: Seq<[u8; 32]>) -> bool {
    forall|j: int| 0 <= j < recipients.len() ==> outside::hpke_usable((#[trigger] recipients[j])@)
}

/// Whether sealing failed as it may: the system gave no randomness, or a recipient's key is of no
/// use.
pub open spec fn sealing_failure(error: ConfigError, recipients: Seq<[u8; 32]>) -> bool {
    error == ConfigError::RandomnessUnavailable || (error == ConfigError::KeyWrapFailed
        && !all_usable(recipients))
}

/// Whether sealing went as it may: an envelope that holds the payload at its place for every
/// recipient and bears the signer's signature, or an error that says that the system gave no
/// randomness or that a recipient's key is of no use.
pub open spec fn sealing_outcome(
    sealed: Result<EncryptedConfigEnvelope, ConfigError>,
    secret: Seq<u8>,
    place: Place,
    plaintext: Seq<u8>,
    recipients: Seq<[u8; 32]>,
) -> bool {
    match sealed {
        Ok(sealed) => {
            &&& all_usable(recipients)
            &&& placed(sealed@, place, plaintext)
            &&& sealed_for(sealed@, plaintext, recipients)
            &&& sealed@.signature@ == outside::ed25519_signature(secret, sealed@.signed)
            &&& outside::ed25519_verifies(
                outside::ed25519_public(secret),
                sealed@.signed,
                sealed@.signature@,
            )
        },
        Err(error) => sealing_failure(error, recipients),
    }
}

/// Seals a content key for one recipient. What the wrap is rests on chance.
fn wrap_content_key(recipient_public: &[u8; 32], content_key: &[u8; 32], aad: &Vec<u8>) -> (wrap: Result<
    KeyWrap,
    ConfigError,
>)
    ensures
        match wrap {
            Ok(wrap) => {
                &&& outside::hpke_usable(recipient_public@)
                &&& wraps_for(wrap@, recipient_public@, content_key@, aad@)
                &&& envelope::wrap_ok(wrap@)
            },
            Err(error) => error == ConfigError::KeyWrapFailed && !outside::hpke_usable(
                recipient_public@,
            ),
        },
{
    match hpke_seal(recipient_public, HPKE_INFO.as_slice(), content_key, aad.as_slice()) {
        Some((encapsulated_key, ciphertext)) => Ok(KeyWrap { encapsulated_key, ciphertext }),
        None => Err(ConfigError::KeyWrapFailed),
    }
}

/// Seals a content key for every recipient, in an order that rests on chance.
fn wrap_for_all(recipients: &[[u8; 32]], content_key: &[u8; 32], aad: &Vec<u8>) -> (wraps: Result<
    Vec<KeyWrap>,
    ConfigError,
>)
    ensures
        match wraps {
            Ok(wraps) => {
                &&& all_usable(recipients@)
                &&& wraps@.len() == recipients@.len()
                &&& forall|i: int|
                    0 <= i < wraps@.len() ==> envelope::wrap_ok(
                        #[trigger] envelope::wrap_views(wraps@)[i],
                    )
                &&& forall|j: int|
                    0 <= j < recipients@.len() ==> any_for(
                        envelope::wrap_views(wraps@),
                        (#[trigger] recipients@[j])@,
                        content_key@,
                        aad@,
                    )
            },
            Err(error) => sealing_failure(error, recipients@),
        },
{
    let mut wraps: Vec<KeyWrap> = Vec::new();
    let mut i: usize = 0;
    while i < recipients.len()
        invariant
            i <= recipients.len(),
            wraps@.len() == i,
            forall|j: int|
                0 <= j < i ==> wraps_for(
                    (#[trigger] wraps@[j])@,
                    recipients@[j]@,
                    content_key@,
                    aad@,
                ) && envelope::wrap_ok(wraps@[j]@),
            forall|j: int|
                0 <= j < i ==> outside::hpke_usable((#[trigger] recipients@[j])@),
        decreases recipients.len() - i,
    {
        let wrap: KeyWrap = wrap_content_key(&recipients[i], content_key, aad)?;
        wraps.push(wrap);
        i = i + 1;
    }
    let ghost before = wraps@;
    shuffle(&mut wraps)?;
    proof {
        broadcast use vstd::seq_lib::group_to_multiset_ensures;

        let after = envelope::wrap_views(wraps@);
        before.to_multiset_ensures();
        wraps@.to_multiset_ensures();
        assert(wraps@.len() == before.len());
        assert forall|i: int| 0 <= i < wraps@.len() implies envelope::wrap_ok(#[trigger] after[i]) by {
            assert(wraps@.contains(wraps@[i]));
            assert(before.to_multiset().count(wraps@[i]) > 0);
            assert(before.contains(wraps@[i]));
            let j = choose|j: int| 0 <= j < before.len() && before[j] == wraps@[i];
            assert(envelope::wrap_ok(before[j]@));
        }
        assert forall|j: int| 0 <= j < recipients@.len() implies any_for(
            after,
            (#[trigger] recipients@[j])@,
            content_key@,
            aad@,
        ) by {
            assert(before.contains(before[j]));
            assert(wraps@.to_multiset().count(before[j]) > 0);
            assert(wraps@.contains(before[j]));
            let i = choose|i: int| 0 <= i < wraps@.len() && wraps@[i] == before[j];
            assert(after[i] == before[j]@);
            assert(wraps_for(after[i], recipients@[j]@, content_key@, aad@));
        }
    }
    Ok(wraps)
}

/// The envelope that holds a payload at a place under a content key, a nonce and wraps, with this
/// signature.
pub open spec fn assembled(
    place: Place,
    plaintext: Seq<u8>,
    key: Seq<u8>,
    nonce: [u8; 24],
    wraps: Seq<Wrap>,
    signature: [u8; 64],
) -> Envelope {
    let payload_hash = wire::array_of::<32>(outside::blake3_hash(plaintext));
    let aad = aad_bytes(
        place.network,
        place.epoch,
        place.revision,
        place.previous_hash,
        payload_hash,
    );
    let e = Envelope {
        format_version: FORMAT_VERSION,
        network_id: place.network,
        epoch: place.epoch,
        revision: place.revision,
        previous_hash: place.previous_hash,
        payload_hash,
        nonce,
        ciphertext: outside::xchacha_sealed(key, nonce@, plaintext, aad)->0,
        wraps,
        signer_key_id: place.signer_key_id,
        signed: Seq::empty(),
        signature,
    };
    Envelope { signed: envelope::unsigned_bytes(e), ..e }
}

/// Why a payload is not sealed under wraps that were made: it is too long, there are too few or
/// too many of them, or one is too long to be written.
pub open spec fn wraps_refusal(plaintext: Seq<u8>, wraps: Seq<Wrap>) -> Option<ConfigError> {
    if plaintext.len() > MAX_CONFIG_PLAINTEXT {
        Some(ConfigError::PayloadTooLarge)
    } else if wraps.len() == 0 || wraps.len() > MAX_KEY_WRAPS {
        Some(ConfigError::InvalidRecipientCount)
    } else if exists|i: int| 0 <= i < wraps.len() && !envelope::wrap_fits(#[trigger] wraps[i]) {
        Some(ConfigError::MalformedWire)
    } else {
        None
    }
}

impl EncryptedConfigEnvelope {
    /// Builds the envelope of a payload from its place, a content key, a nonce and the wraps; the
    /// signature is still missing.
    fn assemble(
        network_id: NetworkId,
        signer_key_id: [u8; 16],
        epoch: u64,
        revision: u64,
        previous_hash: [u8; 32],
        plaintext: &[u8],
        content_key: &[u8; 32],
        nonce: [u8; 24],
        member_key_wraps: Vec<KeyWrap>,
    ) -> (built: Result<Self, ConfigError>)
        ensures
            match wraps_refusal(plaintext@, envelope::wrap_views(member_key_wraps@)) {
                Some(reason) => built matches Err(error) && error == reason,
                None => {
                    &&& built matches Ok(built)
                    &&& built@ == assembled(
                        Place {
                            network: network_id,
                            signer_key_id,
                            epoch,
                            revision,
                            previous_hash,
                        },
                        plaintext@,
                        content_key@,
                        nonce,
                        envelope::wrap_views(member_key_wraps@),
                        built@.signature,
                    )
                    &&& built@.ciphertext.len() == plaintext@.len() + 16
                    &&& outside::xchacha_sealed(
                        content_key@,
                        nonce@,
                        plaintext@,
                        aad_of(built@),
                    ) == Some(built@.ciphertext)
                    &&& outside::xchacha_opened(
                        content_key@,
                        nonce@,
                        built@.ciphertext,
                        aad_of(built@),
                    ) == Some(plaintext@)
                    &&& built.signed_bytes@ == built@.signed
                },
            },
    {
        if plaintext.len() > MAX_CONFIG_PLAINTEXT {
            return Err(ConfigError::PayloadTooLarge);
        }
        if member_key_wraps.len() == 0 || member_key_wraps.len() > MAX_KEY_WRAPS {
            return Err(ConfigError::InvalidRecipientCount);
        }
        let payload_hash: [u8; 32] = hash(plaintext);
        let aad: Vec<u8> = envelope_aad(network_id, epoch, revision, previous_hash, payload_hash);
        let ciphertext: Vec<u8> = match seal_xchacha(
            content_key,
            &nonce,
            plaintext,
            aad.as_slice(),
        ) {
            Some(ciphertext) => ciphertext,
            None => return Err(ConfigError::EncryptionFailed),
        };
        let mut built = EncryptedConfigEnvelope {
            format_version: FORMAT_VERSION,
            network_id,
            epoch,
            revision,
            previous_hash,
            payload_hash,
            nonce,
            ciphertext,
            member_key_wraps,
            signer_key_id,
            signed_bytes: Vec::new(),
            signature: [0u8; 64],
        };
        proof {
            wire::lemma_array_of(payload_hash);
            envelope::lemma_envelope_fields(&built);
            assert(built@.signed =~= Seq::<u8>::empty());
            assert(aad_of(built@) == aad@);
        }
        let signed: Vec<u8> = built.encode_signed_bytes()?;
        let ghost draft = built@;
        built.signed_bytes = signed;
        proof {
            envelope::lemma_envelope_fields(&built);
            envelope::lemma_unsigned_ignores_signature(draft, built@);
        }
        Ok(built)
    }

    /// Seals a payload under a content key and a nonce that were chosen, with wraps that were
    /// made, and signs it with the root key.
    pub fn seal_with(
        root: &NetworkRootKey,
        epoch: u64,
        revision: u64,
        previous_hash: [u8; 32],
        plaintext: &[u8],
        content_key: &[u8; 32],
        nonce: [u8; 24],
        member_key_wraps: Vec<KeyWrap>,
    ) -> (sealed: Result<Self, ConfigError>)
        ensures
            match wraps_refusal(plaintext@, envelope::wrap_views(member_key_wraps@)) {
                Some(reason) => sealed matches Err(error) && error == reason,
                None => {
                    &&& sealed matches Ok(sealed)
                    &&& sealed@ == assembled(
                        root_place(root@, epoch, revision, previous_hash),
                        plaintext@,
                        content_key@,
                        nonce,
                        envelope::wrap_views(member_key_wraps@),
                        sealed@.signature,
                    )
                    &&& sealed@.signature@ == outside::ed25519_signature(root@, sealed@.signed)
                },
            },
    {
        let public: NetworkRootPublic = root.public();
        let sealed: EncryptedConfigEnvelope = Self::assemble(
            public.network_id(),
            public.key_id(),
            epoch,
            revision,
            previous_hash,
            plaintext,
            content_key,
            nonce,
            member_key_wraps,
        )?;
        let signature: [u8; 64] = root.sign_bytes(sealed.signed_bytes.as_slice());
        Ok(sealed.signed_with(signature))
    }

    /// Seals a payload at a place in the chain under a content key and a nonce that rest on
    /// chance; the signature is still missing.
    fn seal_unsigned(
        network_id: NetworkId,
        signer_key_id: [u8; 16],
        epoch: u64,
        revision: u64,
        previous_hash: [u8; 32],
        plaintext: &[u8],
        recipients: &[[u8; 32]],
    ) -> (sealed: Result<Self, ConfigError>)
        ensures
            match seal_refusal(plaintext@, recipients@) {
                Some(reason) => sealed matches Err(error) && error == reason,
                None => match sealed {
                    Ok(sealed) => all_usable(recipients@) && placed(
                        sealed@,
                        Place {
                            network: network_id,
                            signer_key_id,
                            epoch,
                            revision,
                            previous_hash,
                        },
                        plaintext@,
                    ) && sealed_for(sealed@, plaintext@, recipients@) && sealed.signed_bytes@
                        == sealed@.signed,
                    Err(error) => sealing_failure(error, recipients@),
                },
            },
    {
        if plaintext.len() > MAX_CONFIG_PLAINTEXT {
            return Err(ConfigError::PayloadTooLarge);
        }
        if recipients.len() == 0 || recipients.len() > MAX_KEY_WRAPS {
            return Err(ConfigError::InvalidRecipientCount);
        }
        let content_key: [u8; 32] = match random_array::<32>() {
            Some(key) => key,
            None => return Err(ConfigError::RandomnessUnavailable),
        };
        let nonce: [u8; 24] = match random_array::<24>() {
            Some(nonce) => nonce,
            None => return Err(ConfigError::RandomnessUnavailable),
        };
        let aad: Vec<u8> = envelope_aad(
            network_id,
            epoch,
            revision,
            previous_hash,
            hash(plaintext),
        );
        let wraps: Vec<KeyWrap> = wrap_for_all(recipients, &content_key, &aad)?;
        proof {
            let views = envelope::wrap_views(wraps@);
            assert forall|i: int| 0 <= i < views.len() implies envelope::wrap_fits(
                #[trigger] views[i],
            ) by {
                assert(envelope::wrap_ok(views[i]));
            }
        }
        let sealed = Self::assemble(
            network_id,
            signer_key_id,
            epoch,
            revision,
            previous_hash,
            plaintext,
            &content_key,
            nonce,
            wraps,
        );
        proof {
            let e = sealed->Ok_0@;
            wire::lemma_array_exists::<32>(outside::blake3_hash(plaintext@));
            assert(aad_of(e) == aad@);
            assert(sealed_under(e, content_key@, plaintext@, recipients@));
        }
        sealed
    }

    /// Seals a payload at a place in the chain and signs it with the root key.
    pub fn seal(
        root: &NetworkRootKey,
        epoch: u64,
        revision: u64,
        previous_hash: [u8; 32],
        plaintext: &[u8],
        recipients: &[[u8; 32]],
    ) -> (sealed: Result<Self, ConfigError>)
        ensures
            match seal_refusal(plaintext@, recipients@) {
                Some(reason) => sealed matches Err(error) && error == reason,
                None => sealing_outcome(
                    sealed,
                    root@,
                    root_place(root@, epoch, revision, previous_hash),
                    plaintext@,
                    recipients@,
                ),
            },
    {
        let public: NetworkRootPublic = root.public();
        let sealed: EncryptedConfigEnvelope = Self::seal_unsigned(
            public.network_id(),
            public.key_id(),
            epoch,
            revision,
            previous_hash,
            plaintext,
            recipients,
        )?;
        let signature: [u8; 64] = root.sign_bytes(sealed.signed_bytes.as_slice());
        Ok(sealed.signed_with(signature))
    }

    /// The same envelope under a signature.
    fn signed_with(self, signature: [u8; 64]) -> (signed: Self)
        ensures
            signed@ == (Envelope { signature, ..self@ }),
            envelope::envelope_ok(self@) ==> envelope::envelope_ok(signed@),
            forall|plaintext: Seq<u8>, recipients: Seq<[u8; 32]>|
                sealed_for(self@, plaintext, recipients) ==> #[trigger] sealed_for(
                    signed@,
                    plaintext,
                    recipients,
                ),
    {
        let mut signed = self;
        proof {
            envelope::lemma_envelope_fields(&signed);
        }
        signed.signature = signature;
        proof {
            envelope::lemma_envelope_fields(&signed);
            envelope::lemma_unsigned_ignores_signature(self@, signed@);
            assert forall|plaintext: Seq<u8>, recipients: Seq<[u8; 32]>|
                sealed_for(self@, plaintext, recipients) implies #[trigger] sealed_for(
                signed@,
                plaintext,
                recipients,
            ) by {
                let key = choose|key: Seq<u8>| #[trigger]
                    sealed_under(self@, key, plaintext, recipients);
                assert(sealed_under(signed@, key, plaintext, recipients));
            }
        }
        signed
    }
}

/// The place of a payload that the root key signs for its own network.
pub open spec fn root_place(secret: Seq<u8>, epoch: u64, revision: u64, previous_hash: [u8; 32]) -> Place {
    let root = outside::ed25519_public(secret);
    Place {
        network: keys::network_id_of(root),
        signer_key_id: keys::root_key_id(root),
        epoch,
        revision,
        previous_hash,
    }
}

/// The encryption keys that the members of a configuration hold, in its order, where every
/// member can be read.
pub open spec fn member_keys(members: Seq<Seq<u8>>) -> Option<Seq<[u8; 32]>>
    decreases members.len(),
{
    if members.len() == 0 {
        Some(Seq::empty())
    } else {
        match (member_keys(members.drop_last()), member::read_signed_member(members.last())) {
            (Some(front), Some(c)) => Some(front.push(c.payload.encryption_public_key)),
            _ => None,
        }
    }
}

/// What is wrong with the recipients of a configuration: they must be the encryption keys of its
/// members, each exactly once.
pub open spec fn recipients_verdict(c: Config, recipients: Seq<[u8; 32]>) -> Result<(), ConfigError> {
    match member_keys(c.members) {
        None => Err(ConfigError::Signature(CertificateError::MalformedWire)),
        Some(expected) => if expected.no_duplicates() && recipients.no_duplicates()
            && expected.to_set() == recipients.to_set() {
            Ok(())
        } else {
            Err(ConfigError::RecipientSetMismatch)
        },
    }
}

proof fn lemma_keys_missing(members: Seq<Seq<u8>>, i: int)
    requires
        0 <= i <= members.len(),
        member_keys(members.take(i)) is None,
    ensures
        member_keys(members) is None,
    decreases members.len() - i,
{
    if i < members.len() {
        assert(members.take(i + 1).drop_last() =~= members.take(i));
        lemma_keys_missing(members, i + 1);
    } else {
        assert(members.take(i) =~= members);
    }
}

/// Reads the members' encryption keys.
fn expected_recipients(members: &Vec<Vec<u8>>) -> (keys: Result<Vec<[u8; 32]>, ConfigError>)
    ensures
        match member_keys(snapshot::blobs(members@)) {
            Some(all) => keys matches Ok(keys) && keys@ == all,
            None => keys matches Err(error) && error == ConfigError::Signature(
                CertificateError::MalformedWire,
            ),
        },
{
    let ghost all = snapshot::blobs(members@);
    let mut keys: Vec<[u8; 32]> = Vec::new();
    let mut i: usize = 0;
    assert(all.take(0) =~= Seq::<Seq<u8>>::empty());
    assert(keys@ =~= Seq::<[u8; 32]>::empty());
    while i < members.len()
        invariant
            i <= members.len(),
            all == snapshot::blobs(members@),
            member_keys(all.take(i as int)) == Some(keys@),
        decreases members.len() - i,
    {
        proof {
            assert(all.take(i + 1).drop_last() =~= all.take(i as int));
            assert(all.take(i + 1).last() == members@[i as int]@);
            if member_keys(all.take(i + 1)) is None {
                lemma_keys_missing(all, i + 1);
            }
        }
        match MemberCertificate::from_bytes(members[i].as_slice()) {
            Ok(certificate) => keys.push(certificate.payload().encryption_public_key),
            Err(error) => return Err(ConfigError::Signature(error)),
        }
        i = i + 1;
    }
    proof {
        assert(all.take(i as int) =~= all);
    }
    Ok(keys)
}

/// Whether a key is among others.
fn key_among(values: &[[u8; 32]], wanted: &[u8; 32]) -> (found: bool)
    ensures
        found == values@.contains(*wanted),
{
    let mut i: usize = 0;
    while i < values.len()
        invariant
            i <= values.len(),
            forall|j: int| 0 <= j < i ==> values@[j] != *wanted,
        decreases values.len() - i,
    {
        if arrays_equal(&values[i], wanted) {
            assert(values@[i as int] == *wanted);
            return true;
        }
        i = i + 1;
    }
    false
}

/// Whether every key of one list is in another.
fn all_among(values: &[[u8; 32]], others: &[[u8; 32]]) -> (within: bool)
    ensures
        within == values@.to_set().subset_of(others@.to_set()),
{
    let mut i: usize = 0;
    while i < values.len()
        invariant
            i <= values.len(),
            forall|j: int| 0 <= j < i ==> others@.contains(#[trigger] values@[j]),
        decreases values.len() - i,
    {
        if !key_among(others, &values[i]) {
            assert(values@.to_set().contains(values@[i as int]));
            assert(!others@.to_set().contains(values@[i as int]));
            return false;
        }
        i = i + 1;
    }
    assert forall|x: [u8; 32]| values@.to_set().contains(x) implies others@.to_set().contains(x) by {
        let j = choose|j: int| 0 <= j < values@.len() && values@[j] == x;
        assert(others@.contains(values@[j]));
    }
    true
}

/// Whether no key of a list is repeated.
fn all_distinct(values: &[[u8; 32]]) -> (distinct: bool)
    ensures
        distinct == values@.no_duplicates(),
{
    let mut i: usize = 0;
    while i < values.len()
        invariant
            i <= values.len(),
            forall|a: int, b: int|
                0 <= a < b < values@.len() && a < i ==> #[trigger] values@[a] != #[trigger] values@[b],
        decreases values.len() - i,
    {
        let mut j: usize = i + 1;
        while j < values.len()
            invariant
                i < j <= values.len(),
                forall|b: int| i < b < j ==> values@[i as int] != #[trigger] values@[b],
            decreases values.len() - j,
        {
            if arrays_equal(&values[i], &values[j]) {
                assert(values@[i as int] == values@[j as int]);
                return false;
            }
            j = j + 1;
        }
        i = i + 1;
    }
    true
}

/// Checks that a configuration is sealed for its members, each exactly once.
fn validate_recipient_set(config: &NetworkConfigV1, recipients: &[[u8; 32]]) -> (valid: Result<
    (),
    ConfigError,
>)
    ensures
        valid == recipients_verdict(config@, recipients@),
{
    let expected: Vec<[u8; 32]> = expected_recipients(&config.members)?;
    let distinct: bool = all_distinct(expected.as_slice()) && all_distinct(recipients);
    let same: bool = all_among(expected.as_slice(), recipients) && all_among(
        recipients,
        expected.as_slice(),
    );
    proof {
        if same {
            assert(expected@.to_set() =~= recipients@.to_set());
        }
    }
    if distinct && same {
        Ok(())
    } else {
        Err(ConfigError::RecipientSetMismatch)
    }
}

/// Why a configuration is not written for these recipients, whatever chance gives: it is not
/// accepted when it is issued, or the recipients are not its members, or it cannot be written, or
/// what is written cannot be sealed.
pub open spec fn config_refusal(
    c: Config,
    root: Seq<u8>,
    recipients: Seq<[u8; 32]>,
) -> Option<ConfigError> {
    match validate::config_verdict(c, root, keys::network_id_of(root), c.issued_at_ms) {
        Err(reason) => Some(ConfigError::Snapshot(reason)),
        Ok(()) => match recipients_verdict(c, recipients) {
            Err(reason) => Some(reason),
            Ok(()) => if !snapshot::urls_ok(c) {
                Some(ConfigError::Snapshot(SnapshotError::InvalidLength))
            } else {
                seal_refusal(snapshot::config_bytes(c), recipients)
            },
        },
    }
}

/// Why an administrator may not commit a configuration after the one in force: the head is not
/// that configuration's, the administrator is not one of its own or may not write configurations,
/// or the new configuration does not follow the head.
pub open spec fn commit_refusal(
    root: Seq<u8>,
    public: Seq<u8>,
    current: Config,
    head: ConfigHead,
    next: Config,
    now_ms: u64,
) -> Option<ConfigError> {
    if current.network_id != keys::network_id_of(root) || current.revision != head.revision
        || current.epoch != head.epoch {
        Some(ConfigError::EnvelopePayloadMismatch)
    } else {
        match validate::admin_lookup(
            validate::context(current, root, current.network_id, now_ms),
            current.admin_keys,
            keys::admin_key_id(public),
        ) {
            Err(reason) => Some(ConfigError::Snapshot(reason)),
            Ok(signer) => if signer.public_key@ != public {
                Some(ConfigError::WrongSigner)
            } else if !admin::permits(signer.permissions, ADMIN_PERMISSION_CONFIG_WRITE) {
                Some(ConfigError::PermissionDenied)
            } else if next.network_id != keys::network_id_of(root) || next.revision != head.revision
                + 1 || next.previous_hash != head.hash || next.epoch < head.epoch {
                Some(ConfigError::ChainMismatch)
            } else {
                None
            },
        }
    }
}

/// The place of a configuration that an administrator signs.
pub open spec fn admin_place(root: Seq<u8>, public: Seq<u8>, c: Config) -> Place {
    Place {
        network: keys::network_id_of(root),
        signer_key_id: keys::admin_key_id(public),
        epoch: c.epoch,
        revision: c.revision,
        previous_hash: c.previous_hash,
    }
}

impl EncryptedConfigEnvelope {
    /// Checks a configuration and its recipients, and writes it.
    fn prepare(config: &NetworkConfigV1, root: &NetworkRootPublic, recipients: &[[u8; 32]]) -> (plaintext:
        Result<Vec<u8>, ConfigError>)
        ensures
            match plaintext {
                Ok(plaintext) => plaintext@ == snapshot::config_bytes(config@) && config_refusal(
                    config@,
                    root@,
                    recipients@,
                ) == seal_refusal(plaintext@, recipients@),
                Err(error) => config_refusal(config@, root@, recipients@) == Some(error),
            },
    {
        let copy: NetworkConfigV1 = config.clone();
        match copy.validate(root, root.network_id(), config.issued_at_ms) {
            Ok(_) => {},
            Err(error) => return Err(ConfigError::Snapshot(error)),
        }
        validate_recipient_set(config, recipients)?;
        match config.to_bytes() {
            Ok(plaintext) => Ok(plaintext),
            Err(error) => Err(ConfigError::Snapshot(error)),
        }
    }

    /// Seals a configuration for its members and signs it with the root key.
    pub fn seal_config(root: &NetworkRootKey, config: &NetworkConfigV1, recipients: &[[u8; 32]]) -> (sealed:
        Result<Self, ConfigError>)
        ensures
            match config_refusal(config@, outside::ed25519_public(root@), recipients@) {
                Some(reason) => sealed matches Err(error) && error == reason,
                None => sealing_outcome(
                    sealed,
                    root@,
                    root_place(root@, config@.epoch, config@.revision, config@.previous_hash),
                    snapshot::config_bytes(config@),
                    recipients@,
                ),
            },
    {
        let plaintext: Vec<u8> = Self::prepare(config, &root.public(), recipients)?;
        Self::seal(
            root,
            config.epoch,
            config.revision,
            config.previous_hash,
            plaintext.as_slice(),
            recipients,
        )
    }

    /// Seals the configuration that follows the one in force and signs it with an administrator's
    /// key.
    pub fn seal_next_config(
        root: &NetworkRootPublic,
        admin: &OnlineAdminKey,
        current_config: &ValidatedNetworkConfig,
        current_head: ConfigHead,
        next_config: &NetworkConfigV1,
        recipients: &[[u8; 32]],
        now_ms: u64,
    ) -> (sealed: Result<Self, ConfigError>)
        ensures
            match commit_refusal(
                root@,
                outside::ed25519_public(admin@),
                current_config@,
                current_head,
                next_config@,
                now_ms,
            ) {
                Some(reason) => sealed matches Err(error) && error == reason,
                None => match config_refusal(next_config@, root@, recipients@) {
                    Some(reason) => sealed matches Err(error) && error == reason,
                    None => sealing_outcome(
                        sealed,
                        admin@,
                        admin_place(root@, outside::ed25519_public(admin@), next_config@),
                        snapshot::config_bytes(next_config@),
                        recipients@,
                    ),
                },
            },
    {
        let current: &NetworkConfigV1 = current_config.as_config();
        if current.network_id != root.network_id() || current.revision != current_head.revision
            || current.epoch != current_head.epoch {
            return Err(ConfigError::EnvelopePayloadMismatch);
        }
        let signer: VerifiedAdmin = match current_config.verified_admin(
            root,
            admin.key_id(),
            now_ms,
        ) {
            Ok(signer) => signer,
            Err(error) => return Err(ConfigError::Snapshot(error)),
        };
        let public: [u8; 32] = admin.public_bytes();
        if !arrays_equal(&signer.payload().public_key, &public) {
            proof {
                if signer@.public_key@ == public@ {
                    wire::lemma_array_ext(signer@.public_key, public);
                }
            }
            return Err(ConfigError::WrongSigner);
        }
        if signer.payload().permissions & ADMIN_PERMISSION_CONFIG_WRITE == 0 {
            return Err(ConfigError::PermissionDenied);
        }
        if next_config.network_id != root.network_id() || current_head.revision == u64::MAX
            || next_config.revision != current_head.revision + 1 || !arrays_equal(
            &next_config.previous_hash,
            &current_head.hash,
        ) || next_config.epoch < current_head.epoch {
            return Err(ConfigError::ChainMismatch);
        }
        let plaintext: Vec<u8> = Self::prepare(next_config, root, recipients)?;
        let sealed: EncryptedConfigEnvelope = Self::seal_unsigned(
            root.network_id(),
            admin.key_id(),
            next_config.epoch,
            next_config.revision,
            next_config.previous_hash,
            plaintext.as_slice(),
            recipients,
        )?;
        let signature: [u8; 64] = admin.sign_bytes(sealed.signed_bytes.as_slice());
        Ok(sealed.signed_with(signature))
    }
}

/// Whether the wraps of an envelope that were made for others give a reader nothing else than
/// the content key. Ciphertexts of the sealing scheme that open under a wrong key are not known
/// to be impossible, only out of reach.
pub open spec fn reads_only(e: Envelope, secret: Seq<u8>, key: Seq<u8>) -> bool {
    forall|i: int|
        0 <= i < e.wraps.len() ==> (unwrapped(secret, #[trigger] e.wraps[i], aad_of(e)) matches Some(
            found,
        ) ==> found == key)
}

proof fn lemma_content_key(secret: Seq<u8>, wraps: Seq<Wrap>, aad: Seq<u8>, key: Seq<u8>, i: int)
    requires
        0 <= i < wraps.len(),
        unwrapped(secret, wraps[i], aad) == Some(key),
        forall|j: int|
            0 <= j < wraps.len() ==> (unwrapped(secret, #[trigger] wraps[j], aad) matches Some(
                found,
            ) ==> found == key),
    ensures
        content_key(secret, wraps, aad) == Some(key),
    decreases wraps.len(),
{
    let rest = wraps.skip(1);
    if unwrapped(secret, wraps[0], aad) is None {
        assert(rest[i - 1] == wraps[i]);
        assert forall|j: int| 0 <= j < rest.len() implies (unwrapped(
            secret,
            #[trigger] rest[j],
            aad,
        ) matches Some(found) ==> found == key) by {
            assert(rest[j] == wraps[j + 1]);
        }
        lemma_content_key(secret, rest, aad, key, i - 1);
    }
}

proof fn lemma_sealed_opens(
    e: Envelope,
    key: Seq<u8>,
    plaintext: Seq<u8>,
    recipients: Seq<[u8; 32]>,
    secret: Seq<u8>,
    j: int,
    expected: ChainExpectation,
)
    requires
        sealed_under(e, key, plaintext, recipients),
        e.payload_hash@ == outside::blake3_hash(plaintext),
        chain::chain_ok(e, expected),
        0 <= j < recipients.len(),
        secret.len() == 32,
        outside::hpke_public(secret) == recipients[j]@,
        reads_only(e, secret, key),
    ensures
        payload_verdict(e, secret, expected) == Ok::<Opened, ConfigError>(
            Opened { plaintext, head: chain::head_of(e) },
        ),
{
    assert(any_for(e.wraps, recipients[j]@, key, aad_of(e)));
    let i = choose|i: int|
        0 <= i < e.wraps.len() && wraps_for(#[trigger] e.wraps[i], recipients[j]@, key, aad_of(e));
    assert(unwrapped(secret, e.wraps[i], aad_of(e)) == Some(key));
    lemma_content_key(secret, e.wraps, aad_of(e), key, i);
}

/// What the root key sealed, every recipient opens: at its place in the chain, under the root's
/// public key, in its network, the envelope gives back the payload.
pub proof fn law_seal_then_open(
    e: Envelope,
    root: Seq<u8>,
    epoch: u64,
    revision: u64,
    previous_hash: [u8; 32],
    key: Seq<u8>,
    plaintext: Seq<u8>,
    recipients: Seq<[u8; 32]>,
    secret: Seq<u8>,
    j: int,
    expected: ChainExpectation,
)
    requires
        placed(e, root_place(root, epoch, revision, previous_hash), plaintext),
        sealed_under(e, key, plaintext, recipients),
        outside::ed25519_verifies(outside::ed25519_public(root), e.signed, e.signature@),
        chain::chain_ok(e, expected),
        0 <= j < recipients.len(),
        secret.len() == 32,
        outside::hpke_public(secret) == recipients[j]@,
        reads_only(e, secret, key),
    ensures
        open_verdict(e, outside::ed25519_public(root), e.network_id, secret, expected) == Ok::<
            Opened,
            ConfigError,
        >(Opened { plaintext, head: chain::head_of(e) }),
{
    lemma_sealed_opens(e, key, plaintext, recipients, secret, j, expected);
}

/// A single recipient opens what was sealed for it without any further condition.
pub proof fn law_seal_for_one_then_open(
    e: Envelope,
    root: Seq<u8>,
    epoch: u64,
    revision: u64,
    previous_hash: [u8; 32],
    plaintext: Seq<u8>,
    recipient: [u8; 32],
    secret: Seq<u8>,
    expected: ChainExpectation,
)
    requires
        placed(e, root_place(root, epoch, revision, previous_hash), plaintext),
        sealed_for(e, plaintext, seq![recipient]),
        outside::ed25519_verifies(outside::ed25519_public(root), e.signed, e.signature@),
        chain::chain_ok(e, expected),
        secret.len() == 32,
        outside::hpke_public(secret) == recipient@,
    ensures
        open_verdict(e, outside::ed25519_public(root), e.network_id, secret, expected) == Ok::<
            Opened,
            ConfigError,
        >(Opened { plaintext, head: chain::head_of(e) }),
{
    let recipients = seq![recipient];
    let key = choose|key: Seq<u8>| #[trigger] sealed_under(e, key, plaintext, recipients);
    assert(recipients[0] == recipient);
    assert(any_for(e.wraps, recipients[0]@, key, aad_of(e)));
    let i = choose|i: int|
        0 <= i < e.wraps.len() && wraps_for(#[trigger] e.wraps[i], recipient@, key, aad_of(e));
    assert(unwrapped(secret, e.wraps[i], aad_of(e)) == Some(key));
    assert(reads_only(e, secret, key)) by {
        assert forall|k: int| 0 <= k < e.wraps.len() implies (unwrapped(
            secret,
            #[trigger] e.wraps[k],
            aad_of(e),
        ) matches Some(found) ==> found == key) by {
            assert(k == i);
        }
    }
    lemma_sealed_opens(e, key, plaintext, recipients, secret, 0, expected);
}

/// A configuration that was sealed is opened as it was by every member, for as long as it is
/// accepted.
pub proof fn law_seal_config_then_open(
    e: Envelope,
    root: Seq<u8>,
    c: Config,
    key: Seq<u8>,
    recipients: Seq<[u8; 32]>,
    secret: Seq<u8>,
    j: int,
    expected: ChainExpectation,
    now_ms: u64,
)
    requires
        config_refusal(c, outside::ed25519_public(root), recipients) is None,
        snapshot::names_ok(c),
        placed(
            e,
            root_place(root, c.epoch, c.revision, c.previous_hash),
            snapshot::config_bytes(c),
        ),
        sealed_under(e, key, snapshot::config_bytes(c), recipients),
        outside::ed25519_verifies(outside::ed25519_public(root), e.signed, e.signature@),
        chain::chain_ok(e, expected),
        0 <= j < recipients.len(),
        secret.len() == 32,
        outside::hpke_public(secret) == recipients[j]@,
        reads_only(e, secret, key),
        validate::config_verdict(c, outside::ed25519_public(root), c.network_id, now_ms) is Ok,
    ensures
        open_config_verdict(
            e,
            outside::ed25519_public(root),
            c.network_id,
            secret,
            expected,
            now_ms,
        ) == Ok::<Unsealed, ConfigError>(Unsealed { config: c, head: chain::head_of(e) }),
{
    let public = outside::ed25519_public(root);
    lemma_sealed_opens(e, key, snapshot::config_bytes(c), recipients, secret, j, expected);
    snapshot::law_config_round_trip(c);
    validate::law_accepted_config_is_in_force(c, public, c.network_id, now_ms);
}

/// A configuration that an administrator committed after the one in force is opened as it was by
/// every member that stands at the head, for as long as the administrator and the configuration
/// are accepted.
pub proof fn law_commit_then_open(
    e: Envelope,
    root: Seq<u8>,
    admin_secret: Seq<u8>,
    current: Config,
    head: ConfigHead,
    next: Config,
    key: Seq<u8>,
    recipients: Seq<[u8; 32]>,
    secret: Seq<u8>,
    j: int,
    now_ms: u64,
)
    requires
        commit_refusal(
            root,
            outside::ed25519_public(admin_secret),
            current,
            head,
            next,
            now_ms,
        ) is None,
        config_refusal(next, root, recipients) is None,
        snapshot::names_ok(next),
        placed(
            e,
            admin_place(root, outside::ed25519_public(admin_secret), next),
            snapshot::config_bytes(next),
        ),
        sealed_under(e, key, snapshot::config_bytes(next), recipients),
        outside::ed25519_verifies(outside::ed25519_public(admin_secret), e.signed, e.signature@),
        0 <= j < recipients.len(),
        secret.len() == 32,
        outside::hpke_public(secret) == recipients[j]@,
        reads_only(e, secret, key),
        validate::config_verdict(next, root, next.network_id, now_ms) is Ok,
    ensures
        next_verdict(e, root, current, secret, head, now_ms) == Ok::<Unsealed, ConfigError>(
            Unsealed { config: next, head: chain::head_of(e) },
        ),
{
    let public = outside::ed25519_public(admin_secret);
    let ctx = validate::context(current, root, current.network_id, now_ms);
    validate::lemma_lookup_result(ctx, current.admin_keys, keys::admin_key_id(public));
    lemma_sealed_opens(
        e,
        key,
        snapshot::config_bytes(next),
        recipients,
        secret,
        j,
        ChainExpectation::Next(head),
    );
    snapshot::law_config_round_trip(next);
}

/// Whoever cannot open any wrap of an envelope cannot open the envelope: a member for whom the
/// content key was not sealed reads nothing.
pub proof fn law_without_a_wrap_nothing_opens(
    e: Envelope,
    root: Seq<u8>,
    network: NetworkId,
    secret: Seq<u8>,
    expected: ChainExpectation,
)
    requires
        forall|i: int|
            0 <= i < e.wraps.len() ==> unwrapped(secret, #[trigger] e.wraps[i], aad_of(e)) is None,
    ensures
        open_verdict(e, root, network, secret, expected) is Err,
        payload_verdict(e, secret, expected) == Err::<Opened, ConfigError>(
            if chain::chain_ok(e, expected) {
                ConfigError::NoRecipientWrap
            } else {
                ConfigError::ChainMismatch
            },
        ),
{
    lemma_no_content_key(secret, e.wraps, aad_of(e));
}

proof fn lemma_no_content_key(secret: Seq<u8>, wraps: Seq<Wrap>, aad: Seq<u8>)
    requires
        forall|i: int| 0 <= i < wraps.len() ==> unwrapped(secret, #[trigger] wraps[i], aad) is None,
    ensures
        content_key(secret, wraps, aad) is None,
    decreases wraps.len(),
{
    if wraps.len() > 0 {
        let rest = wraps.skip(1);
        assert forall|i: int| 0 <= i < rest.len() implies unwrapped(
            secret,
            #[trigger] rest[i],
            aad,
        ) is None by {
            assert(rest[i] == wraps[i + 1]);
        }
        lemma_no_content_key(secret, rest, aad);
    }
}

/// What the root key sealed is refused to every reader who expects another network, as another
/// network's, and to every reader of its network who expects it at another place in the chain, as
/// out of place: after itself, and at the beginning where it is not the first. A reader for whom
/// it holds no wrap is told so.
pub proof fn law_sealed_opens_at_its_place_only(
    e: Envelope,
    root: Seq<u8>,
    epoch: u64,
    revision: u64,
    previous_hash: [u8; 32],
    plaintext: Seq<u8>,
    secret: Seq<u8>,
    network: NetworkId,
    expected: ChainExpectation,
)
    requires
        placed(e, root_place(root, epoch, revision, previous_hash), plaintext),
        outside::ed25519_verifies(outside::ed25519_public(root), e.signed, e.signature@),
    ensures
        ({
            let public = outside::ed25519_public(root);
            let opened = open_verdict(e, public, e.network_id, secret, expected);
            let again = ChainExpectation::Next(chain::head_of(e));
            &&& network != e.network_id ==> open_verdict(e, public, network, secret, expected)
                == Err::<Opened, ConfigError>(ConfigError::WrongNetwork)
            &&& !chain::chain_ok(e, expected) <==> opened == Err::<Opened, ConfigError>(
                ConfigError::ChainMismatch,
            )
            &&& open_verdict(e, public, e.network_id, secret, again) == Err::<Opened, ConfigError>(
                ConfigError::ChainMismatch,
            )
            &&& revision > 0 ==> open_verdict(
                e,
                public,
                e.network_id,
                secret,
                ChainExpectation::Genesis,
            ) == Err::<Opened, ConfigError>(ConfigError::ChainMismatch)
            &&& chain::chain_ok(e, expected) && (forall|i: int|
                0 <= i < e.wraps.len() ==> unwrapped(
                    secret,
                    #[trigger] e.wraps[i],
                    aad_of(e),
                ) is None) ==> opened == Err::<Opened, ConfigError>(ConfigError::NoRecipientWrap)
        }),
{
    if forall|i: int|
        0 <= i < e.wraps.len() ==> unwrapped(secret, #[trigger] e.wraps[i], aad_of(e)) is None {
        lemma_no_content_key(secret, e.wraps, aad_of(e));
    }
}

/// What opens was signed by the root key for this network over its exact bytes, stands where it
/// was expected, and has the payload that was signed for.
pub proof fn law_opened_is_authentic(
    e: Envelope,
    root: Seq<u8>,
    network: NetworkId,
    secret: Seq<u8>,
    expected: ChainExpectation,
)
    requires
        open_verdict(e, root, network, secret, expected) is Ok,
    ensures
        e.network_id == network && keys::network_id_of(root) == network,
        e.signer_key_id == keys::root_key_id(root),
        outside::ed25519_verifies(root, e.signed, e.signature@),
        chain::chain_ok(e, expected),
        ({
            let opened = open_verdict(e, root, network, secret, expected)->Ok_0;
            &&& outside::blake3_hash(opened.plaintext) == e.payload_hash@
            &&& opened.head == chain::head_of(e)
        }),
{
}

/// A configuration that opens after the one in force was committed by an administrator of that
/// one with the permission to write configurations, has the envelope's own place in the chain,
/// moves the revision forward by one, never goes back to an earlier epoch, and is accepted.
pub proof fn law_next_is_committed(
    e: Envelope,
    root: Seq<u8>,
    current: Config,
    secret: Seq<u8>,
    head: ConfigHead,
    now_ms: u64,
)
    requires
        next_verdict(e, root, current, secret, head, now_ms) is Ok,
    ensures
        ({
            let next = next_verdict(e, root, current, secret, head, now_ms)->Ok_0;
            let signer = validate::admin_lookup(
                validate::context(current, root, current.network_id, now_ms),
                current.admin_keys,
                e.signer_key_id,
            );
            &&& signer matches Ok(signer) && admin::permits(
                signer.permissions,
                ADMIN_PERMISSION_CONFIG_WRITE,
            ) && outside::ed25519_verifies(signer.public_key@, e.signed, e.signature@)
            &&& next.config.network_id == current.network_id
            &&& next.config.revision == head.revision + 1
            &&& next.config.epoch >= head.epoch
            &&& next.config.previous_hash == head.hash
            &&& next.head == chain::head_of(e)
            &&& next.head.revision == next.config.revision
            &&& next.head.epoch == next.config.epoch
            &&& validate::config_verdict(next.config, root, current.network_id, now_ms) == Ok::<
                (),
                SnapshotError,
            >(())
        }),
{
}

/// The members' keys are read in the members' order.
proof fn lemma_member_keys(members: Seq<Seq<u8>>)
    ensures
        match member_keys(members) {
            Some(keys) => keys.len() == members.len() && forall|i: int|
                0 <= i < members.len() ==> (member::read_signed_member(
                    #[trigger] members[i],
                ) matches Some(m) && m.payload.encryption_public_key == keys[i]),
            None => exists|i: int|
                0 <= i < members.len() && member::read_signed_member(#[trigger] members[i]) is None,
        },
    decreases members.len(),
{
    if members.len() > 0 {
        let front = members.drop_last();
        lemma_member_keys(front);
        match member_keys(members) {
            Some(keys) => {
                assert forall|i: int| 0 <= i < members.len() implies (member::read_signed_member(
                    #[trigger] members[i],
                ) matches Some(m) && m.payload.encryption_public_key == keys[i]) by {
                    if i < front.len() {
                        assert(front[i] == members[i]);
                    }
                }
            },
            None => {
                if member_keys(front) is None {
                    let i = choose|i: int|
                        0 <= i < front.len() && member::read_signed_member(
                            #[trigger] front[i],
                        ) is None;
                    assert(members[i] == front[i]);
                } else {
                    assert(member::read_signed_member(members[members.len() - 1]) is None);
                }
            },
        }
    }
}

/// Whether the certificate of a member can be read and names this encryption key.
pub open spec fn member_reads_with(raw: Seq<u8>, key: [u8; 32]) -> bool {
    member::read_signed_member(raw) matches Some(m) && m.payload.encryption_public_key == key
}

/// Recipients are accepted for a configuration exactly where each of its member certificates can be
/// read, each names an encryption key that is among the recipients and that no other member has,
/// each recipient is the key of a member, and none is given twice. A certificate that cannot be
/// read is told apart from recipients that do not match.
pub proof fn law_recipients_are_the_members(c: Config, recipients: Seq<[u8; 32]>)
    ensures
        recipients_verdict(c, recipients) is Ok <==> {
            &&& forall|i: int|
                0 <= i < c.members.len() ==> (member::read_signed_member(
                    #[trigger] c.members[i],
                ) matches Some(m) && recipients.contains(m.payload.encryption_public_key))
            &&& forall|j: int|
                0 <= j < recipients.len() ==> exists|i: int|
                    0 <= i < c.members.len() && member_reads_with(
                        #[trigger] c.members[i],
                        #[trigger] recipients[j],
                    )
            &&& recipients.len() == c.members.len()
            &&& forall|j: int, k: int|
                0 <= j < k < recipients.len() ==> #[trigger] recipients[j]
                    != #[trigger] recipients[k]
        },
        recipients_verdict(c, recipients) matches Err(reason) ==> reason == (if exists|i: int|
            0 <= i < c.members.len() && member::read_signed_member(#[trigger] c.members[i]) is None {
            ConfigError::Signature(CertificateError::MalformedWire)
        } else {
            ConfigError::RecipientSetMismatch
        }),
{
    lemma_member_keys(c.members);
    if member_keys(c.members) is Some {
        let keys = member_keys(c.members)->Some_0;
        let right = {
            &&& forall|i: int|
                0 <= i < c.members.len() ==> (member::read_signed_member(
                    #[trigger] c.members[i],
                ) matches Some(m) && recipients.contains(m.payload.encryption_public_key))
            &&& forall|j: int|
                0 <= j < recipients.len() ==> exists|i: int|
                    0 <= i < c.members.len() && member_reads_with(
                        #[trigger] c.members[i],
                        #[trigger] recipients[j],
                    )
            &&& recipients.len() == c.members.len()
            &&& forall|j: int, k: int|
                0 <= j < k < recipients.len() ==> #[trigger] recipients[j]
                    != #[trigger] recipients[k]
        };
        if recipients_verdict(c, recipients) is Ok {
            assert forall|i: int| 0 <= i < c.members.len() implies (member::read_signed_member(
                #[trigger] c.members[i],
            ) matches Some(m) && recipients.contains(m.payload.encryption_public_key)) by {
                assert(keys.to_set().contains(keys[i]));
                assert(recipients.to_set().contains(keys[i]));
            }
            assert forall|j: int| 0 <= j < recipients.len() implies exists|i: int|
                0 <= i < c.members.len() && member_reads_with(
                    #[trigger] c.members[i],
                    #[trigger] recipients[j],
                ) by {
                assert(recipients.to_set().contains(recipients[j]));
                assert(keys.to_set().contains(recipients[j]));
                let i = choose|i: int| 0 <= i < keys.len() && keys[i] == recipients[j];
                assert(member_reads_with(c.members[i], recipients[j]));
            }
            keys.unique_seq_to_set();
            recipients.unique_seq_to_set();
            assert(right);
        }
        if right {
            assert forall|x: [u8; 32]| keys.to_set().contains(x) implies recipients.to_set().contains(
                x,
            ) by {
                let i = choose|i: int| 0 <= i < keys.len() && keys[i] == x;
                assert(member::read_signed_member(c.members[i]) is Some);
                assert(recipients.contains(x));
            }
            assert forall|x: [u8; 32]| recipients.to_set().contains(x) implies keys.to_set().contains(
                x,
            ) by {
                let j = choose|j: int| 0 <= j < recipients.len() && recipients[j] == x;
                let i = choose|i: int|
                    0 <= i < c.members.len() && member_reads_with(
                        #[trigger] c.members[i],
                        recipients[j],
                    );
                assert(keys[i] == x);
            }
            assert(keys.to_set() =~= recipients.to_set());
            recipients.unique_seq_to_set();
            keys.lemma_no_dup_set_cardinality();
        }
    } else {
        let i = choose|i: int|
            0 <= i < c.members.len() && member::read_signed_member(#[trigger] c.members[i]) is None;
        assert(member::read_signed_member(c.members[i]) is None);
    }
}

/// A configuration is written for recipients exactly where it is accepted when it is issued, the
/// recipients are its members, at least one of them and no more than fit, and its encoding is not
/// too long; every address in it can be written.
pub proof fn law_when_a_config_is_sealed(c: Config, root: Seq<u8>, recipients: Seq<[u8; 32]>)
    ensures
        config_refusal(c, root, recipients) is None <==> {
            &&& validate::config_verdict(c, root, keys::network_id_of(root), c.issued_at_ms) is Ok
            &&& recipients_verdict(c, recipients) is Ok
            &&& snapshot::urls_ok(c)
            &&& snapshot::config_bytes(c).len() <= 1048576
            &&& 1 <= recipients.len() <= 256
        },
{
}

/// Every member that a sealed configuration lists opens it, not only every recipient that was
/// given: the holder of the encryption key in any member certificate reads the configuration as it
/// was, for as long as it is accepted.
pub proof fn law_every_listed_member_opens(
    e: Envelope,
    root: Seq<u8>,
    c: Config,
    key: Seq<u8>,
    recipients: Seq<[u8; 32]>,
    secret: Seq<u8>,
    i: int,
    expected: ChainExpectation,
    now_ms: u64,
)
    requires
        config_refusal(c, outside::ed25519_public(root), recipients) is None,
        snapshot::names_ok(c),
        placed(
            e,
            root_place(root, c.epoch, c.revision, c.previous_hash),
            snapshot::config_bytes(c),
        ),
        sealed_under(e, key, snapshot::config_bytes(c), recipients),
        outside::ed25519_verifies(outside::ed25519_public(root), e.signed, e.signature@),
        chain::chain_ok(e, expected),
        0 <= i < c.members.len(),
        secret.len() == 32,
        member::read_signed_member(c.members[i]) matches Some(m) ==> outside::hpke_public(secret)
            == m.payload.encryption_public_key@,
        reads_only(e, secret, key),
        validate::config_verdict(c, outside::ed25519_public(root), c.network_id, now_ms) is Ok,
    ensures
        member::read_signed_member(c.members[i]) matches Some(m) && recipients.contains(
            m.payload.encryption_public_key,
        ),
        open_config_verdict(
            e,
            outside::ed25519_public(root),
            c.network_id,
            secret,
            expected,
            now_ms,
        ) == Ok::<Unsealed, ConfigError>(Unsealed { config: c, head: chain::head_of(e) }),
{
    law_recipients_are_the_members(c, recipients);
    let m = member::read_signed_member(c.members[i])->Some_0;
    let j = choose|j: int|
        0 <= j < recipients.len() && recipients[j] == m.payload.encryption_public_key;
    law_seal_config_then_open(e, root, c, key, recipients, secret, j, expected, now_ms);
}

/// Every member that a committed configuration lists opens it after the one in force, not only
/// every recipient that was given.
pub proof fn law_every_listed_member_follows(
    e: Envelope,
    root: Seq<u8>,
    admin_secret: Seq<u8>,
    current: Config,
    head: ConfigHead,
    next: Config,
    key: Seq<u8>,
    recipients: Seq<[u8; 32]>,
    secret: Seq<u8>,
    i: int,
    now_ms: u64,
)
    requires
        commit_refusal(
            root,
            outside::ed25519_public(admin_secret),
            current,
            head,
            next,
            now_ms,
        ) is None,
        config_refusal(next, root, recipients) is None,
        snapshot::names_ok(next),
        placed(
            e,
            admin_place(root, outside::ed25519_public(admin_secret), next),
            snapshot::config_bytes(next),
        ),
        sealed_under(e, key, snapshot::config_bytes(next), recipients),
        outside::ed25519_verifies(outside::ed25519_public(admin_secret), e.signed, e.signature@),
        0 <= i < next.members.len(),
        secret.len() == 32,
        member::read_signed_member(next.members[i]) matches Some(m) ==> outside::hpke_public(secret)
            == m.payload.encryption_public_key@,
        reads_only(e, secret, key),
        validate::config_verdict(next, root, next.network_id, now_ms) is Ok,
    ensures
        member::read_signed_member(next.members[i]) matches Some(m) && recipients.contains(
            m.payload.encryption_public_key,
        ),
        next_verdict(e, root, current, secret, head, now_ms) == Ok::<Unsealed, ConfigError>(
            Unsealed { config: next, head: chain::head_of(e) },
        ),
{
    law_recipients_are_the_members(next, recipients);
    let m = member::read_signed_member(next.members[i])->Some_0;
    let j = choose|j: int|
        0 <= j < recipients.len() && recipients[j] == m.payload.encryption_public_key;
    law_commit_then_open(
        e,
        root,
        admin_secret,
        current,
        head,
        next,
        key,
        recipients,
        secret,
        j,
        now_ms,
    );
}

/// An administrator commits a configuration exactly where the configuration in force is that of the
/// head and of the network, it certifies the administrator's own key with the permission to write
/// configurations, and the new one is the next revision, names the head's hash and is of no earlier
/// epoch.
pub proof fn law_when_a_config_is_committed(
    root: Seq<u8>,
    public: Seq<u8>,
    current: Config,
    head: ConfigHead,
    next: Config,
    now_ms: u64,
)
    ensures
        commit_refusal(root, public, current, head, next, now_ms) is None <==> {
            &&& current.network_id == keys::network_id_of(root)
            &&& (current.revision, current.epoch) == (head.revision, head.epoch)
            &&& validate::admin_lookup(
                validate::context(current, root, current.network_id, now_ms),
                current.admin_keys,
                keys::admin_key_id(public),
            ) matches Ok(signer)
            &&& signer.public_key@ == public
            &&& admin::permits(signer.permissions, ADMIN_PERMISSION_CONFIG_WRITE)
            &&& next.network_id == keys::network_id_of(root)
            &&& next.revision == head.revision + 1
            &&& next.previous_hash == head.hash
            &&& head.epoch <= next.epoch
        },
{
}

} // verus!
