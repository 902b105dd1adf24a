//! Which envelopes open, for whom, and which shapes a configuration may have.
use crate::config::chain;
use crate::config::chain::{ChainExpectation, ConfigHead};
use crate::config::envelope::{ConfigError, Envelope, Wrap};
use crate::config::sealing;
use crate::config::sealing::{Opened, Unsealed};
use crate::config::snapshot;
use crate::config::snapshot::{Config, NetworkPolicy, SnapshotError};
use crate::config::validate;
use crate::crypto::admin;
use crate::crypto::admin::AdminCertificatePayload;
use crate::crypto::keys;
use crate::identifiers::NetworkId;
use crate::outside;
use vstd::prelude::*;

verus! {

/// The content key that the owner of a secret finds is that of the first wrap that opens to a key,
/// whatever stands before and after it; there is none exactly where no wrap does.
pub proof fn law_which_content_key_is_found(secret: Seq<u8>, wraps: Seq<Wrap>, aad: Seq<u8>)
    ensures
        match sealing::content_key(secret, wraps, aad) {
            Some(key) => key.len() == 32 && exists|i: int|
                0 <= i < wraps.len() && sealing::unwrapped(secret, #[trigger] wraps[i], aad) == Some(
                    key,
                ) && forall|k: int|
                    0 <= k < i ==> sealing::unwrapped(secret, #[trigger] wraps[k], aad) is None,
            None => forall|k: int|
                0 <= k < wraps.len() ==> sealing::unwrapped(secret, #[trigger] wraps[k], aad) is None,
        },
    decreases wraps.len(),
{
    if wraps.len() > 0 {
        let rest = wraps.skip(1);
        law_which_content_key_is_found(secret, rest, aad);
        assert forall|k: int| 0 < k < wraps.len() implies #[trigger] wraps[k] == rest[k - 1] by {}
        match sealing::unwrapped(secret, wraps[0], aad) {
            Some(_) => {},
            None => match sealing::content_key(secret, rest, aad) {
                Some(key) => {
                    let i = choose|i: int|
                        0 <= i < rest.len() && sealing::unwrapped(secret, #[trigger] rest[i], aad)
                            == Some(key) && forall|k: int|
                            0 <= k < i ==> sealing::unwrapped(
                                secret,
                                #[trigger] rest[k],
                                aad,
                            ) is None;
                    assert(wraps[i + 1] == rest[i]);
                },
                None => {},
            },
        }
    }
}

/// A wrap gives a content key exactly where it opens to thirty-two bytes: those.
pub proof fn law_what_a_wrap_gives(secret: Seq<u8>, w: Wrap, aad: Seq<u8>, key: Seq<u8>)
    ensures
        sealing::unwrapped(secret, w, aad) == Some(key) <==> key.len() == 32 && outside::hpke_opened(
            secret,
            w.encapsulated_key,
            sealing::HPKE_INFO@,
            w.ciphertext,
            aad,
        ) == Some(key),
{
}

/// An envelope whose signature holds opens exactly where it stands where it is expected, holds a
/// content key for the reader, that key decrypts it, and what comes out has the hash that was
/// signed. Each refusal says which of these is not so.
pub proof fn law_when_a_payload_opens(e: Envelope, secret: Seq<u8>, expected: ChainExpectation)
    ensures
        ({
            let verdict = sealing::payload_verdict(e, secret, expected);
            let key = sealing::content_key(secret, e.wraps, sealing::aad_of(e));
            let plaintext = outside::xchacha_opened(
                key->Some_0,
                e.nonce@,
                e.ciphertext,
                sealing::aad_of(e),
            );
            &&& verdict is Ok <==> {
                &&& chain::chain_ok(e, expected)
                &&& key is Some
                &&& plaintext is Some
                &&& outside::blake3_hash(plaintext->Some_0) == e.payload_hash@
            }
            &&& verdict matches Ok(opened) ==> opened.plaintext == plaintext->Some_0 && opened.head
                == chain::head_of(e)
            &&& verdict == Err::<Opened, ConfigError>(ConfigError::ChainMismatch)
                <==> !chain::chain_ok(e, expected)
            &&& verdict == Err::<Opened, ConfigError>(ConfigError::NoRecipientWrap)
                <==> chain::chain_ok(e, expected) && key is None
            &&& verdict == Err::<Opened, ConfigError>(ConfigError::DecryptionFailed)
                <==> chain::chain_ok(e, expected) && key is Some && plaintext is None
        }),
{
}

/// An envelope of the root opens exactly where it and the root key belong to the network, it names
/// the root as its signer, the root signed it, and its payload opens.
pub proof fn law_when_a_root_envelope_opens(
    e: Envelope,
    root: Seq<u8>,
    network: NetworkId,
    secret: Seq<u8>,
    expected: ChainExpectation,
)
    ensures
        ({
            let verdict = sealing::open_verdict(e, root, network, secret, expected);
            let payload = sealing::payload_verdict(e, secret, expected);
            &&& verdict is Ok <==> {
                &&& e.network_id == network
                &&& keys::network_id_of(root) == network
                &&& e.signer_key_id == keys::root_key_id(root)
                &&& outside::ed25519_verifies(root, e.signed, e.signature@)
                &&& payload is Ok
            }
            &&& verdict is Ok ==> verdict == payload
            &&& verdict == Err::<Opened, ConfigError>(ConfigError::WrongNetwork) <==> e.network_id
                != network || keys::network_id_of(root) != network
            &&& verdict == Err::<Opened, ConfigError>(ConfigError::WrongSigner) <==> e.network_id
                == network && keys::network_id_of(root) == network && e.signer_key_id
                != keys::root_key_id(root)
        }),
{
}

/// A payload is taken as a configuration exactly where it can be read as one, that one is of the
/// envelope's network, epoch and revision and names the same hash before it, and it is accepted.
pub proof fn law_when_a_payload_is_a_config(e: Envelope, root: Seq<u8>, opened: Opened, now_ms: u64)
    ensures
        ({
            let verdict = sealing::decoded_verdict(e, root, opened, now_ms);
            &&& verdict is Ok <==> {
                &&& snapshot::read_config(opened.plaintext) matches Ok(c)
                &&& c.network_id == e.network_id
                &&& c.epoch == e.epoch
                &&& c.revision == e.revision
                &&& c.previous_hash == e.previous_hash
                &&& validate::config_verdict(c, root, e.network_id, now_ms) is Ok
            }
            &&& verdict matches Ok(u) ==> u.head == opened.head && snapshot::read_config(
                opened.plaintext,
            ) == Ok::<Config, SnapshotError>(u.config)
            &&& verdict == Err::<Unsealed, ConfigError>(ConfigError::EnvelopePayloadMismatch) <==> (
            snapshot::read_config(opened.plaintext) matches Ok(c) && (c.network_id != e.network_id
                || c.epoch != e.epoch || c.revision != e.revision || c.previous_hash
                != e.previous_hash))
        }),
{
}

/// The envelope after a configuration in force opens exactly where it, the root key and that
/// configuration belong to one network, that configuration has the administrator that it names as
/// its signer, and it opens as that administrator's right after the head.
pub proof fn law_when_the_next_envelope_opens(
    e: Envelope,
    root: Seq<u8>,
    current: Config,
    secret: Seq<u8>,
    head: ConfigHead,
    now_ms: u64,
)
    ensures
        sealing::next_verdict(e, root, current, secret, head, now_ms) is Ok <==> {
            &&& e.network_id == keys::network_id_of(root)
            &&& e.network_id == current.network_id
            &&& validate::admin_lookup(
                validate::context(current, root, current.network_id, now_ms),
                current.admin_keys,
                e.signer_key_id,
            ) matches Ok(signer)
            &&& sealing::admin_open_verdict(
                e,
                root,
                signer,
                secret,
                ChainExpectation::Next(head),
                now_ms,
            ) is Ok
        },
{
}

/// A payload is sealed exactly where it is at most a mebibyte, for one recipient up to two hundred
/// and fifty-six.
pub proof fn law_what_is_sealed(plaintext: Seq<u8>, recipients: Seq<[u8; 32]>)
    ensures
        sealing::seal_refusal(plaintext, recipients) is None <==> plaintext.len() <= 1048576 && 1
            <= recipients.len() <= 256,
        sealing::seal_refusal(plaintext, recipients) == Some(ConfigError::PayloadTooLarge)
            <==> plaintext.len() > 1048576,
{
}

/// An address can be written exactly where it is between one and two thousand and forty-eight
/// characters long, all of them ASCII.
pub proof fn law_which_addresses_are_written(url: Seq<char>)
    ensures
        snapshot::url_ok(url) <==> 1 <= url.len() <= 2048 && forall|i: int|
            0 <= i < url.len() ==> '\0' <= #[trigger] url[i] <= '\u{7f}',
{
    if vstd::utf8::is_ascii_chars(url) {
        vstd::utf8::is_ascii_chars_encode_utf8(url);
    }
}

/// A policy sets limits that a network can have exactly where it allows at least one member and one
/// service for each binding, and no more than fit.
pub proof fn law_which_policies_are_set(p: NetworkPolicy)
    ensures
        snapshot::policy_ok(p) <==> 1 <= p.max_members <= 256 && 1 <= p.max_services_per_binding
            <= 64,
{
}

/// Whether each of some credentials is neither empty nor too long.
pub open spec fn all_credentials_fit(s: Seq<Seq<u8>>) -> bool {
    forall|i: int| 0 <= i < s.len() ==> 1 <= (#[trigger] s[i]).len() <= 16384
}

/// The shape of a configuration is in order exactly where it is valid for some time, no list is
/// longer than it may be, no credential is empty or too long, and its policy can be set. Each
/// refusal says which of these is not so.
pub proof fn law_which_shapes_are_in_order(c: Config)
    ensures
        ({
            let counts = c.admin_keys.len() <= 16 && c.members.len() <= 256
                && c.endpoint_bindings.len() <= 256 && c.revoked_serials.len() <= 4096
                && c.apps.len() <= 256 && c.app_bindings.len() <= 1024 && c.virtual_dns.len() <= 1024
                && c.relays.len() <= 64 && c.presence_services.len() <= 64;
            let fit = all_credentials_fit(c.admin_keys) && all_credentials_fit(c.members)
                && all_credentials_fit(c.endpoint_bindings) && all_credentials_fit(c.apps)
                && all_credentials_fit(c.app_bindings);
            let verdict = snapshot::shape_verdict(c);
            &&& verdict is Ok <==> c.issued_at_ms < c.expires_at_ms && counts && fit
                && snapshot::policy_ok(c.policies)
            &&& verdict == Err::<(), SnapshotError>(SnapshotError::InvalidValidityWindow)
                <==> c.expires_at_ms <= c.issued_at_ms
            &&& verdict == Err::<(), SnapshotError>(SnapshotError::InvalidLength)
                <==> c.issued_at_ms < c.expires_at_ms && !(counts && fit)
            &&& verdict == Err::<(), SnapshotError>(SnapshotError::PolicyLimitExceeded)
                <==> c.issued_at_ms < c.expires_at_ms && counts && fit && !snapshot::policy_ok(
                c.policies,
            )
        }),
{
    lemma_fit(c.admin_keys);
    lemma_fit(c.members);
    lemma_fit(c.endpoint_bindings);
    lemma_fit(c.apps);
    lemma_fit(c.app_bindings);
}

proof fn lemma_fit(s: Seq<Seq<u8>>)
    ensures
        snapshot::blobs_ok(s) == all_credentials_fit(s),
{
    if all_credentials_fit(s) {
        assert forall|i: int| 0 <= i < s.len() implies snapshot::blob_ok(#[trigger] s[i]) by {}
    }
    if snapshot::blobs_ok(s) {
        assert forall|i: int| 0 <= i < s.len() implies 1 <= (#[trigger] s[i]).len() <= 16384 by {
            assert(snapshot::blob_ok(s[i]));
        }
    }
}

/// Why an administrator may not commit a configuration: each reason means one thing.
pub proof fn law_why_a_commit_is_refused(
    root: Seq<u8>,
    public: Seq<u8>,
    current: Config,
    head: ConfigHead,
    next: Config,
    now_ms: u64,
)
    ensures
        ({
            let signer = validate::admin_lookup(
                validate::context(current, root, current.network_id, now_ms),
                current.admin_keys,
                keys::admin_key_id(public),
            );
            sealing::commit_refusal(root, public, current, head, next, now_ms) matches Some(reason)
                ==> match reason {
                ConfigError::EnvelopePayloadMismatch => current.network_id != keys::network_id_of(
                    root,
                ) || current.revision != head.revision || current.epoch != head.epoch,
                ConfigError::Snapshot(e) => signer matches Err(found) && found == e,
                ConfigError::WrongSigner => signer matches Ok(s) && s.public_key@ != public,
                ConfigError::PermissionDenied => signer matches Ok(s) && !admin::permits(
                    s.permissions,
                    admin::ADMIN_PERMISSION_CONFIG_WRITE,
                ),
                ConfigError::ChainMismatch => next.network_id != keys::network_id_of(root)
                    || next.revision != head.revision + 1 || next.previous_hash != head.hash
                    || next.epoch < head.epoch,
                _ => false,
            }
        }),
{
}

/// Why an envelope that an administrator signed does not open, before its payload is looked at: each
/// reason means one thing.
pub proof fn law_why_an_admin_envelope_does_not_open(
    e: Envelope,
    root: Seq<u8>,
    signer: AdminCertificatePayload,
    secret: Seq<u8>,
    expected: ChainExpectation,
    now_ms: u64,
)
    ensures
        ({
            let verdict = sealing::admin_open_verdict(e, root, signer, secret, expected, now_ms);
            let ours = e.network_id == keys::network_id_of(root) && e.network_id
                == signer.network_id;
            let named = e.signer_key_id == signer.key_id;
            let allowed = admin::permits(signer.permissions, admin::ADMIN_PERMISSION_CONFIG_WRITE);
            let signed = outside::ed25519_verifies(signer.public_key@, e.signed, e.signature@);
            &&& !ours ==> verdict == Err::<Unsealed, ConfigError>(ConfigError::WrongNetwork)
            &&& ours && !named ==> verdict == Err::<Unsealed, ConfigError>(ConfigError::WrongSigner)
            &&& ours && named && !allowed ==> verdict == Err::<Unsealed, ConfigError>(
                ConfigError::PermissionDenied,
            )
            &&& ours && named && allowed && !signed ==> verdict == Err::<Unsealed, ConfigError>(
                ConfigError::Signature(keys::CertificateError::InvalidSignature),
            )
            &&& ours && named && allowed && signed ==> match sealing::payload_verdict(
                e,
                secret,
                expected,
            ) {
                Err(reason) => verdict == Err::<Unsealed, ConfigError>(reason),
                Ok(opened) => verdict == sealing::decoded_verdict(e, root, opened, now_ms),
            }
        }),
{
}

/// Why a configuration is not sealed: the first of what is wrong with it, with its recipients, with
/// its addresses, and with its size.
pub proof fn law_why_a_config_is_not_sealed(c: Config, root: Seq<u8>, recipients: Seq<[u8; 32]>)
    ensures
        ({
            let verdict = validate::config_verdict(
                c,
                root,
                keys::network_id_of(root),
                c.issued_at_ms,
            );
            let refusal = sealing::config_refusal(c, root, recipients);
            &&& verdict matches Err(e) ==> refusal == Some(ConfigError::Snapshot(e))
            &&& verdict is Ok ==> match sealing::recipients_verdict(c, recipients) {
                Err(e) => refusal == Some(e),
                Ok(()) => if snapshot::urls_ok(c) {
                    refusal == sealing::seal_refusal(snapshot::config_bytes(c), recipients)
                } else {
                    refusal == Some(ConfigError::Snapshot(SnapshotError::InvalidLength))
                },
            }
        }),
{
}

} // verus!
