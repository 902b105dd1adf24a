//! How a request to join is prepared, so that it never names a key whose secret is not kept.
use crate::config::sealing::MemberEncryptionKeypair;
use crate::crypto::join;
use crate::crypto::join::{PreparedJoin, PreparedJoinRequest};
use crate::crypto::keys::{CertificateError, SigningKeypair};
use crate::crypto::member::MemberRoles;
use crate::identifiers::NetworkId;
use crate::net::membership;
use crate::net::membership::{member_secret_id, secret_key_bytes, MembershipError, NetworkMembership};
use crate::outside;
use crate::outside::{endpoint_generate, random_array};
use crate::wire;
use vstd::prelude::*;

verus! {

/// What the name of the signing secret is made from.
pub const SIGNING_LABEL: [u8; 14] = [109, 101, 109, 98, 101, 114, 45, 115, 105, 103, 110, 105, 110, 103];

/// What the name of the encryption secret is made from.
pub const ENCRYPTION_LABEL: [u8; 17] = [
    109,
    101,
    109,
    98,
    101,
    114,
    45,
    101,
    110,
    99,
    114,
    121,
    112,
    116,
    105,
    111,
    110,
];

/// What the name of the endpoint's secret is made from.
pub const ENDPOINT_LABEL: [u8; 8] = [101, 110, 100, 112, 111, 105, 110, 116];

/// The secrets of a member.
#[derive(Clone, Copy, Debug, PartialEq, Eq, Structural)]
pub enum SecretKind {
    Signing,
    Encryption,
    Endpoint,
}

impl SecretKind {
    /// What the name of such a secret is made from.
    pub open spec fn label(self) -> Seq<u8> {
        match self {
            SecretKind::Signing => SIGNING_LABEL@,
            SecretKind::Encryption => ENCRYPTION_LABEL@,
            SecretKind::Endpoint => ENDPOINT_LABEL@,
        }
    }

    /// The name under which such a secret of a member of a network is kept.
    pub fn secret_id(self, network_id: NetworkId) -> (id: [u8; 32])
        ensures
            id@ == outside::blake3_derived(
                "weaver.member.secret-id.v1"@,
                network_id@ + self.label(),
            ),
    {
        match self {
            SecretKind::Signing => member_secret_id(network_id, SIGNING_LABEL.as_slice()),
            SecretKind::Encryption => member_secret_id(network_id, ENCRYPTION_LABEL.as_slice()),
            SecretKind::Endpoint => member_secret_id(network_id, ENDPOINT_LABEL.as_slice()),
        }
    }
}

/// How far a request has been prepared.
#[derive(Clone, Copy, Debug, PartialEq, Eq, Structural)]
pub enum JoinPhase {
    /// Looks whether the network was joined already.
    CheckingHead,
    /// Looks for a request that was prepared before.
    ReadingRequest,
    /// Opens a secret.
    Opening,
    /// Draws a secret that is not there.
    Drawing,
    /// Keeps a secret that was drawn.
    Keeping,
    /// Opens a secret that was kept by another meanwhile.
    Reopening,
    /// Has all secrets, and draws the nonce.
    Composing,
    /// Writes the request.
    Writing,
    /// Looks for the request that was there first.
    Rereading,
    /// Has a request.
    Ready,
    /// Gave up.
    Failed,
}

/// What is to be done next.
#[derive(Clone, Copy, Debug, PartialEq, Eq)]
pub enum JoinStep {
    /// Look whether a configuration is stored.
    ReadHead,
    /// Read the prepared request.
    ReadRequest,
    /// Open a secret.
    OpenSecret(SecretKind),
    /// Draw a secret by chance.
    DrawSecret(SecretKind),
    /// Keep the secret that was drawn, unless another is kept in its place.
    KeepSecret(SecretKind),
    /// Draw a nonce by chance.
    DrawNonce,
    /// Write the request, unless there is one.
    WriteRequest,
    /// Take the request.
    Ready,
    /// Give up.
    Fail(MembershipError),
    /// Give up: a secret that another kept first is not found.
    SecretGone(SecretKind),
    /// Nothing: this was not what was waited for.
    OutOfTurn,
}

/// What came of the last step.
pub enum JoinEvent {
    Head { joined: bool },
    Request(Option<Vec<u8>>),
    Secret(Vec<u8>),
    NoSecret,
    Drawn([u8; 32]),
    Kept,
    /// Another secret is kept in its place.
    Taken,
    Nonce([u8; 32]),
    Written,
    /// There is a request already.
    Conflict,
}

/// The contents of what came of a step.
pub enum Outcome {
    Head { joined: bool },
    Request(Option<Seq<u8>>),
    Secret(Seq<u8>),
    NoSecret,
    Drawn([u8; 32]),
    Kept,
    Taken,
    Nonce([u8; 32]),
    Written,
    Conflict,
}

impl View for JoinEvent {
    type V = Outcome;

    open spec fn view(&self) -> Outcome {
        match self {
            JoinEvent::Head { joined } => Outcome::Head { joined: *joined },
            JoinEvent::Request(Some(request)) => Outcome::Request(Some(request@)),
            JoinEvent::Request(None) => Outcome::Request(None),
            JoinEvent::Secret(secret) => Outcome::Secret(secret@),
            JoinEvent::NoSecret => Outcome::NoSecret,
            JoinEvent::Drawn(secret) => Outcome::Drawn(*secret),
            JoinEvent::Kept => Outcome::Kept,
            JoinEvent::Taken => Outcome::Taken,
            JoinEvent::Nonce(nonce) => Outcome::Nonce(*nonce),
            JoinEvent::Written => Outcome::Written,
            JoinEvent::Conflict => Outcome::Conflict,
        }
    }
}

/// Prepares a request to join a network, or takes up the one that was prepared before: the secrets
/// are kept before the request that names their keys is written, and secrets that are kept already
/// are used again.
pub struct JoinPreparation {
    network_id: NetworkId,
    roles: MemberRoles,
    expires_at_ms: u64,
    phase: JoinPhase,
    secrets: Vec<[u8; 32]>,
    drawn: [u8; 32],
    fresh: Option<PreparedJoinRequest>,
    found: Option<PreparedJoinRequest>,
}

/// Where preparing a request stands.
#[verifier::ext_equal]
pub struct Preparing {
    pub network: NetworkId,
    pub roles: MemberRoles,
    pub expires_at_ms: u64,
    pub phase: JoinPhase,
    pub secrets: Seq<[u8; 32]>,
    pub drawn: [u8; 32],
    pub fresh: Option<PreparedJoin>,
    pub found: Option<PreparedJoin>,
}

/// The contents of an optional request.
pub open spec fn contents(request: Option<PreparedJoinRequest>) -> Option<PreparedJoin> {
    match request {
        Some(request) => Some(request@),
        None => None,
    }
}

impl View for JoinPreparation {
    type V = Preparing;

    closed spec fn view(&self) -> Preparing {
        Preparing {
            network: self.network_id,
            roles: self.roles,
            expires_at_ms: self.expires_at_ms,
            phase: self.phase,
            secrets: self.secrets@,
            drawn: self.drawn,
            fresh: contents(self.fresh),
            found: contents(self.found),
        }
    }
}

/// Which secret comes after so many others.
pub open spec fn kind_at(index: int) -> SecretKind {
    if index == 0 {
        SecretKind::Signing
    } else if index == 1 {
        SecretKind::Encryption
    } else {
        SecretKind::Endpoint
    }
}

fn kind_after(count: usize) -> (kind: SecretKind)
    ensures
        kind == kind_at(count as int),
{
    if count == 0 {
        SecretKind::Signing
    } else if count == 1 {
        SecretKind::Encryption
    } else {
        SecretKind::Endpoint
    }
}

/// Before anything was done.
pub open spec fn preparing_start(
    network: NetworkId,
    roles: MemberRoles,
    expires_at_ms: u64,
    drawn: [u8; 32],
) -> Preparing {
    Preparing {
        network,
        roles,
        expires_at_ms,
        phase: JoinPhase::CheckingHead,
        secrets: Seq::empty(),
        drawn,
        fresh: None,
        found: None,
    }
}

/// Gives up.
pub open spec fn gives_up(s: Preparing, error: MembershipError) -> (Preparing, JoinStep) {
    (Preparing { phase: JoinPhase::Failed, ..s }, JoinStep::Fail(error))
}

/// Takes up a request that was found.
pub open spec fn with_request(s: Preparing, request: Seq<u8>) -> (Preparing, JoinStep) {
    match join::read_prepared(request) {
        Some(found) => (
            Preparing { phase: JoinPhase::Ready, found: Some(found), ..s },
            JoinStep::Ready,
        ),
        None => gives_up(s, MembershipError::Crypto(CertificateError::MalformedWire)),
    }
}

/// Asks for the secret that is missing first.
pub open spec fn asking(s: Preparing, phase: JoinPhase) -> (Preparing, JoinStep) {
    (
        Preparing { phase, ..s },
        JoinStep::OpenSecret(kind_at(s.secrets.len() as int)),
    )
}

/// Goes on with one more secret.
pub open spec fn with_key(s: Preparing, secret: [u8; 32]) -> (Preparing, JoinStep) {
    let s = Preparing { secrets: s.secrets.push(secret), ..s };
    if s.secrets.len() < 3 {
        asking(s, JoinPhase::Opening)
    } else {
        (Preparing { phase: JoinPhase::Composing, ..s }, JoinStep::DrawNonce)
    }
}

/// Goes on with a secret that was opened; it must be as long as a key.
pub open spec fn with_secret(s: Preparing, secret: Seq<u8>) -> (Preparing, JoinStep) {
    if secret.len() == 32 {
        with_key(s, wire::array_of(secret))
    } else {
        gives_up(s, MembershipError::CorruptSecret)
    }
}

/// Goes on with a nonce: the request is made.
pub open spec fn with_nonce(s: Preparing, nonce: [u8; 32]) -> (Preparing, JoinStep) {
    if s.secrets.len() < 3 {
        (s, JoinStep::OutOfTurn)
    } else {
        match membership::composed(
            s.network,
            s.secrets[0]@,
            s.secrets[1]@,
            s.secrets[2]@,
            nonce,
            s.roles,
            s.expires_at_ms,
        ) {
            Err(error) => gives_up(s, error),
            Ok(made) => (
                Preparing { phase: JoinPhase::Writing, fresh: Some(made), ..s },
                JoinStep::WriteRequest,
            ),
        }
    }
}

/// How preparing a request goes on.
pub open spec fn preparing_next(s: Preparing, outcome: Outcome) -> (Preparing, JoinStep) {
    match (s.phase, outcome) {
        (JoinPhase::CheckingHead, Outcome::Head { joined }) => if joined {
            gives_up(s, MembershipError::AlreadyJoined)
        } else {
            (Preparing { phase: JoinPhase::ReadingRequest, ..s }, JoinStep::ReadRequest)
        },
        (JoinPhase::ReadingRequest, Outcome::Request(None)) => asking(s, JoinPhase::Opening),
        (JoinPhase::ReadingRequest, Outcome::Request(Some(request))) => with_request(s, request),
        (JoinPhase::Opening, Outcome::Secret(secret)) => with_secret(s, secret),
        (JoinPhase::Opening, Outcome::NoSecret) => (
            Preparing { phase: JoinPhase::Drawing, ..s },
            JoinStep::DrawSecret(kind_at(s.secrets.len() as int)),
        ),
        (JoinPhase::Drawing, Outcome::Drawn(drawn)) => (
            Preparing { phase: JoinPhase::Keeping, drawn, ..s },
            JoinStep::KeepSecret(kind_at(s.secrets.len() as int)),
        ),
        (JoinPhase::Keeping, Outcome::Kept) => with_key(s, s.drawn),
        (JoinPhase::Keeping, Outcome::Taken) => asking(s, JoinPhase::Reopening),
        (JoinPhase::Reopening, Outcome::Secret(secret)) => with_secret(s, secret),
        (JoinPhase::Reopening, Outcome::NoSecret) => (
            Preparing { phase: JoinPhase::Failed, ..s },
            JoinStep::SecretGone(kind_at(s.secrets.len() as int)),
        ),
        (JoinPhase::Composing, Outcome::Nonce(nonce)) => with_nonce(s, nonce),
        (JoinPhase::Writing, Outcome::Written) => (
            Preparing { phase: JoinPhase::Ready, found: s.fresh, fresh: None, ..s },
            JoinStep::Ready,
        ),
        (JoinPhase::Writing, Outcome::Conflict) => (
            Preparing { phase: JoinPhase::Rereading, ..s },
            JoinStep::ReadRequest,
        ),
        (JoinPhase::Rereading, Outcome::Request(None)) => gives_up(s, MembershipError::NotPrepared),
        (JoinPhase::Rereading, Outcome::Request(Some(request))) => with_request(s, request),
        _ => (s, JoinStep::OutOfTurn),
    }
}

/// Whether the request that was made names the public halves of the secrets.
pub open spec fn names_its_keys(s: Preparing) -> bool {
    &&& s.secrets.len() >= 3
    &&& s.fresh matches Some(made)
    &&& membership::keys_verdict(
        made.request.payload,
        s.secrets[1]@,
        s.secrets[2]@,
        s.secrets[0]@,
    ) is Ok
}

impl JoinPreparation {
    /// Starts; the first step is to look whether the network was joined already.
    pub fn new(network_id: NetworkId, roles: MemberRoles, expires_at_ms: u64) -> (preparation: Self)
        ensures
            preparation@ == preparing_start(
                network_id,
                roles,
                expires_at_ms,
                preparation@.drawn,
            ),
    {
        let preparation = JoinPreparation {
            network_id,
            roles,
            expires_at_ms,
            phase: JoinPhase::CheckingHead,
            secrets: Vec::new(),
            drawn: [0u8; 32],
            fresh: None,
            found: None,
        };
        assert(preparation@ =~= preparing_start(
            network_id,
            roles,
            expires_at_ms,
            preparation@.drawn,
        ));
        preparation
    }

    /// The secret that was drawn last.
    pub fn drawn(&self) -> (secret: [u8; 32])
        ensures
            secret == self@.drawn,
    {
        self.drawn
    }

    /// The request that is to be written.
    pub fn fresh(&self) -> (fresh: Option<&PreparedJoinRequest>)
        ensures
            match fresh {
                Some(fresh) => self@.fresh == Some(fresh@),
                None => self@.fresh is None,
            },
    {
        self.fresh.as_ref()
    }

    /// The request, once it is ready.
    pub fn finish(self) -> (found: Option<PreparedJoinRequest>)
        ensures
            contents(found) == (if self@.phase == JoinPhase::Ready {
                self@.found
            } else {
                None
            }),
    {
        if self.phase == JoinPhase::Ready {
            self.found
        } else {
            None
        }
    }

    /// Goes on after a step. A request that is to be written names the public halves of the
    /// secrets.
    pub fn step(&mut self, event: JoinEvent) -> (step: JoinStep)
        ensures
            (final(self)@, step) == preparing_next(old(self)@, event@),
            old(self)@.phase == JoinPhase::Composing && step == JoinStep::WriteRequest
                ==> names_its_keys(final(self)@),
    {
        match (self.phase, event) {
            (JoinPhase::CheckingHead, JoinEvent::Head { joined }) => {
                if joined {
                    self.give_up(MembershipError::AlreadyJoined)
                } else {
                    self.phase = JoinPhase::ReadingRequest;
                    JoinStep::ReadRequest
                }
            },
            (JoinPhase::ReadingRequest, JoinEvent::Request(None)) => self.ask(JoinPhase::Opening),
            (JoinPhase::ReadingRequest, JoinEvent::Request(Some(request))) => self.resume(request),
            (JoinPhase::Opening, JoinEvent::Secret(secret)) => self.opened(secret),
            (JoinPhase::Opening, JoinEvent::NoSecret) => {
                self.phase = JoinPhase::Drawing;
                JoinStep::DrawSecret(kind_after(self.secrets.len()))
            },
            (JoinPhase::Drawing, JoinEvent::Drawn(drawn)) => {
                self.phase = JoinPhase::Keeping;
                self.drawn = drawn;
                JoinStep::KeepSecret(kind_after(self.secrets.len()))
            },
            (JoinPhase::Keeping, JoinEvent::Kept) => {
                let drawn: [u8; 32] = self.drawn;
                self.take(drawn)
            },
            (JoinPhase::Keeping, JoinEvent::Taken) => self.ask(JoinPhase::Reopening),
            (JoinPhase::Reopening, JoinEvent::Secret(secret)) => self.opened(secret),
            (JoinPhase::Reopening, JoinEvent::NoSecret) => {
                self.phase = JoinPhase::Failed;
                JoinStep::SecretGone(kind_after(self.secrets.len()))
            },
            (JoinPhase::Composing, JoinEvent::Nonce(nonce)) => self.compose(nonce),
            (JoinPhase::Writing, JoinEvent::Written) => {
                self.phase = JoinPhase::Ready;
                self.found = self.fresh.take();
                JoinStep::Ready
            },
            (JoinPhase::Writing, JoinEvent::Conflict) => {
                self.phase = JoinPhase::Rereading;
                JoinStep::ReadRequest
            },
            (JoinPhase::Rereading, JoinEvent::Request(None)) => {
                self.give_up(MembershipError::NotPrepared)
            },
            (JoinPhase::Rereading, JoinEvent::Request(Some(request))) => self.resume(request),
            _ => JoinStep::OutOfTurn,
        }
    }

    /// Goes on with a secret or a nonce that rests on chance, where one is to be drawn, or says
    /// that the system gives no randomness.
    pub fn draw(&mut self) -> (step: JoinStep)
        ensures
            match old(self)@.phase {
                JoinPhase::Composing => {
                    ||| (final(self)@, step) == gives_up(
                        old(self)@,
                        MembershipError::RandomnessUnavailable,
                    )
                    ||| exists|nonce: [u8; 32]|
                        (final(self)@, step) == #[trigger] preparing_next(
                            old(self)@,
                            Outcome::Nonce(nonce),
                        )
                },
                JoinPhase::Drawing => {
                    ||| kind_at(old(self)@.secrets.len() as int) == SecretKind::Signing && (
                    final(self)@, step) == gives_up(
                        old(self)@,
                        MembershipError::Crypto(CertificateError::RandomnessUnavailable),
                    )
                    ||| exists|secret: [u8; 32]|
                        (final(self)@, step) == #[trigger] preparing_next(
                            old(self)@,
                            Outcome::Drawn(secret),
                        )
                },
                _ => (final(self)@, step) == (old(self)@, JoinStep::OutOfTurn),
            },
            old(self)@.phase == JoinPhase::Composing && step == JoinStep::WriteRequest
                ==> names_its_keys(final(self)@),
    {
        if self.phase == JoinPhase::Composing {
            match random_array::<32>() {
                Some(nonce) => {
                    let step: JoinStep = self.step(JoinEvent::Nonce(nonce));
                    assert((self@, step) == preparing_next(old(self)@, Outcome::Nonce(nonce)));
                    step
                },
                None => self.give_up(MembershipError::RandomnessUnavailable),
            }
        } else if self.phase == JoinPhase::Drawing {
            match draw_secret(kind_after(self.secrets.len())) {
                Ok(secret) => {
                    let step: JoinStep = self.step(JoinEvent::Drawn(secret));
                    assert((self@, step) == preparing_next(old(self)@, Outcome::Drawn(secret)));
                    step
                },
                Err(error) => self.give_up(error),
            }
        } else {
            JoinStep::OutOfTurn
        }
    }

    fn give_up(&mut self, error: MembershipError) -> (step: JoinStep)
        ensures
            (final(self)@, step) == gives_up(old(self)@, error),
    {
        self.phase = JoinPhase::Failed;
        JoinStep::Fail(error)
    }

    fn ask(&mut self, phase: JoinPhase) -> (step: JoinStep)
        ensures
            (final(self)@, step) == asking(old(self)@, phase),
    {
        self.phase = phase;
        JoinStep::OpenSecret(kind_after(self.secrets.len()))
    }

    fn resume(&mut self, request: Vec<u8>) -> (step: JoinStep)
        ensures
            (final(self)@, step) == with_request(old(self)@, request@),
    {
        match PreparedJoinRequest::from_bytes(request.as_slice()) {
            Ok(found) => {
                self.phase = JoinPhase::Ready;
                self.found = Some(found);
                JoinStep::Ready
            },
            Err(error) => self.give_up(MembershipError::Crypto(error)),
        }
    }

    fn opened(&mut self, secret: Vec<u8>) -> (step: JoinStep)
        ensures
            (final(self)@, step) == with_secret(old(self)@, secret@),
    {
        match secret_key_bytes(secret.as_slice()) {
            Some(key) => {
                proof {
                    wire::lemma_array_of(key);
                }
                self.take(key)
            },
            None => self.give_up(MembershipError::CorruptSecret),
        }
    }

    fn take(&mut self, secret: [u8; 32]) -> (step: JoinStep)
        ensures
            (final(self)@, step) == with_key(old(self)@, secret),
    {
        self.secrets.push(secret);
        if self.secrets.len() < 3 {
            self.ask(JoinPhase::Opening)
        } else {
            self.phase = JoinPhase::Composing;
            JoinStep::DrawNonce
        }
    }

    fn compose(&mut self, nonce: [u8; 32]) -> (step: JoinStep)
        ensures
            (final(self)@, step) == with_nonce(old(self)@, nonce),
            step == JoinStep::WriteRequest ==> names_its_keys(final(self)@),
    {
        if self.secrets.len() < 3 {
            return JoinStep::OutOfTurn;
        }
        let signing: SigningKeypair = SigningKeypair::from_bytes(&self.secrets[0]);
        let encryption: MemberEncryptionKeypair = match MemberEncryptionKeypair::from_secret_bytes(
            self.secrets[1],
        ) {
            Ok(encryption) => encryption,
            Err(error) => return self.give_up(MembershipError::Config(error)),
        };
        match NetworkMembership::prepare_join_with(
            self.network_id,
            &signing,
            &encryption,
            &self.secrets[2],
            nonce,
            self.roles,
            self.expires_at_ms,
        ) {
            Ok(made) => {
                self.phase = JoinPhase::Writing;
                self.fresh = Some(made);
                JoinStep::WriteRequest
            },
            Err(error) => self.give_up(error),
        }
    }
}

/// Draws a secret by chance.
fn draw_secret(kind: SecretKind) -> (secret: Result<[u8; 32], MembershipError>)
    ensures
        secret matches Err(error) ==> kind == SecretKind::Signing && error
            == MembershipError::Crypto(CertificateError::RandomnessUnavailable),
{
    match kind {
        SecretKind::Signing => match SigningKeypair::generate() {
            Ok(key) => Ok(key.to_bytes()),
            Err(error) => Err(MembershipError::Crypto(error)),
        },
        SecretKind::Encryption => match MemberEncryptionKeypair::generate() {
            Ok(key) => Ok(key.secret_bytes()),
            Err(error) => Err(MembershipError::Config(error)),
        },
        SecretKind::Endpoint => Ok(endpoint_generate()),
    }
}

/// What is stored: whether there is a configuration, the prepared request, if any, and the secrets
/// of the member.
#[verifier::ext_equal]
pub struct Stored {
    pub joined: bool,
    pub request: Option<Seq<u8>>,
    pub secrets: Map<SecretKind, Seq<u8>>,
}

/// Whether the secrets of the keys that a request names are there.
pub open spec fn secrets_of(w: Stored, request: PreparedJoin) -> bool {
    &&& w.secrets.contains_key(SecretKind::Signing)
    &&& w.secrets.contains_key(SecretKind::Encryption)
    &&& w.secrets.contains_key(SecretKind::Endpoint)
    &&& membership::keys_verdict(
        request.request.payload,
        w.secrets[SecretKind::Encryption],
        w.secrets[SecretKind::Endpoint],
        w.secrets[SecretKind::Signing],
    ) is Ok
}

/// Whether the prepared request has its secrets.
pub open spec fn request_has_its_secrets(w: Stored) -> bool {
    match w.request {
        Some(bytes) => join::read_prepared(bytes) matches Some(request) ==> secrets_of(w, request),
        None => true,
    }
}

/// What a step does to what is stored.
pub open spec fn performed(w: Stored, s: Preparing, step: JoinStep) -> Stored {
    match (step, s.fresh) {
        (JoinStep::KeepSecret(kind), _) => if w.secrets.contains_key(kind) {
            w
        } else {
            Stored { secrets: w.secrets.insert(kind, s.drawn@), ..w }
        },
        (JoinStep::WriteRequest, Some(made)) => if w.request is None {
            Stored { request: Some(join::prepared_bytes(made)), ..w }
        } else {
            w
        },
        _ => w,
    }
}

/// Whether stores that hold this answer a step so. A store keeps no secret in the place of another,
/// and writes no request over another.
pub open spec fn answered(w: Stored, s: Preparing, step: JoinStep, outcome: Outcome) -> bool {
    match step {
        JoinStep::ReadHead => outcome == (Outcome::Head { joined: w.joined }),
        JoinStep::ReadRequest => outcome == Outcome::Request(w.request),
        JoinStep::OpenSecret(kind) => outcome == (if w.secrets.contains_key(kind) {
            Outcome::Secret(w.secrets[kind])
        } else {
            Outcome::NoSecret
        }),
        JoinStep::DrawSecret(_) => outcome is Drawn,
        JoinStep::KeepSecret(kind) => outcome == (if w.secrets.contains_key(kind)
            && w.secrets[kind] != s.drawn@ {
            Outcome::Taken
        } else {
            Outcome::Kept
        }),
        JoinStep::DrawNonce => outcome matches Outcome::Nonce(nonce) && {
            let made = with_nonce(s, nonce);
            made.1 == JoinStep::WriteRequest ==> names_its_keys(made.0)
        },
        JoinStep::WriteRequest => outcome == (if w.request is None {
            Outcome::Written
        } else {
            Outcome::Conflict
        }),
        _ => false,
    }
}

/// Whether a secret that was taken up is the one that is kept.
pub open spec fn kept_at(w: Stored, s: Preparing, i: int) -> bool {
    w.secrets.contains_key(kind_at(i)) && w.secrets[kind_at(i)] == s.secrets[i]@
}

/// Whether the secrets that were taken up are those that are kept.
pub open spec fn holds_what_is_kept(w: Stored, s: Preparing) -> bool {
    &&& s.secrets.len() <= 3
    &&& forall|i: int| 0 <= i < s.secrets.len() ==> #[trigger] kept_at(w, s, i)
}

/// What holds between what is stored, where the preparation stands, and the step that comes next.
pub open spec fn in_step(w: Stored, s: Preparing, step: JoinStep) -> bool {
    &&& request_has_its_secrets(w)
    &&& holds_what_is_kept(w, s)
    &&& match s.phase {
        JoinPhase::CheckingHead => step == JoinStep::ReadHead && s.secrets.len() == 0,
        JoinPhase::ReadingRequest => step == JoinStep::ReadRequest && s.secrets.len() == 0,
        JoinPhase::Opening => s.secrets.len() < 3 && step == JoinStep::OpenSecret(
            kind_at(s.secrets.len() as int),
        ),
        JoinPhase::Drawing => s.secrets.len() < 3 && step == JoinStep::DrawSecret(
            kind_at(s.secrets.len() as int),
        ),
        JoinPhase::Keeping => s.secrets.len() < 3 && step == JoinStep::KeepSecret(
            kind_at(s.secrets.len() as int),
        ),
        JoinPhase::Reopening => {
            &&& s.secrets.len() < 3
            &&& step == JoinStep::OpenSecret(kind_at(s.secrets.len() as int))
            &&& w.secrets.contains_key(kind_at(s.secrets.len() as int))
        },
        JoinPhase::Composing => step == JoinStep::DrawNonce && s.secrets.len() == 3,
        JoinPhase::Writing => {
            &&& step == JoinStep::WriteRequest
            &&& s.secrets.len() == 3
            &&& names_its_keys(s)
        },
        JoinPhase::Rereading => step == JoinStep::ReadRequest && w.request is Some,
        JoinPhase::Ready => {
            &&& step == JoinStep::Ready
            &&& s.found matches Some(found)
            &&& w.request matches Some(bytes)
            &&& join::read_prepared(bytes) == Some(found)
            &&& secrets_of(w, found)
        },
        JoinPhase::Failed => step is Fail || step is SecretGone,
    }
}

/// A preparation begins in step with whatever is stored, if the request has its secrets.
pub proof fn law_preparation_begins_in_step(
    w: Stored,
    network: NetworkId,
    roles: MemberRoles,
    expires_at_ms: u64,
    drawn: [u8; 32],
)
    requires
        request_has_its_secrets(w),
    ensures
        in_step(w, preparing_start(network, roles, expires_at_ms, drawn), JoinStep::ReadHead),
{
}

/// Wherever a preparation is cut off, before a step, right after it, or once it is answered, the
/// prepared request has its secrets. And a preparation that is ready has the request that is
/// stored, with the secrets of its keys.
pub proof fn law_no_request_lacks_its_secrets(
    w: Stored,
    s: Preparing,
    step: JoinStep,
    outcome: Outcome,
)
    requires
        in_step(w, s, step),
        answered(w, s, step, outcome),
    ensures
        request_has_its_secrets(performed(w, s, step)),
        in_step(performed(w, s, step), preparing_next(s, outcome).0, preparing_next(s, outcome).1),
{
    let after = performed(w, s, step);
    let t = preparing_next(s, outcome).0;
    if s.phase == JoinPhase::Writing {
        let made = s.fresh->0;
        join::law_prepared_round_trip(made);
        assert(kept_at(w, s, 0) && kept_at(w, s, 1) && kept_at(w, s, 2));
        assert(secrets_of(w, made));
    }
    if t.secrets.len() > s.secrets.len() {
        let kind = kind_at(s.secrets.len() as int);
        if w.secrets.contains_key(kind) && w.secrets[kind].len() == 32 {
            wire::lemma_array_exists::<32>(w.secrets[kind]);
        }
    }
    assert forall|i: int| 0 <= i < t.secrets.len() implies #[trigger] kept_at(after, t, i) by {
        if i < s.secrets.len() {
            assert(kept_at(w, s, i));
            assert(t.secrets[i] == s.secrets[i]);
        }
    }
}

/// Whether nothing was taken away: the request and the secrets that were there still are.
pub open spec fn grown(before: Stored, after: Stored) -> bool {
    &&& before.request is Some ==> after.request == before.request
    &&& forall|kind: SecretKind|
        #![trigger before.secrets.contains_key(kind)]
        before.secrets.contains_key(kind) ==> after.secrets.contains_key(kind)
            && after.secrets[kind] == before.secrets[kind]
}

/// Others may keep secrets and write the first request meanwhile: as long as they take nothing
/// away, a preparation stays in step.
pub proof fn law_others_do_not_get_in_the_way(
    before: Stored,
    after: Stored,
    s: Preparing,
    step: JoinStep,
)
    requires
        in_step(before, s, step),
        request_has_its_secrets(after),
        grown(before, after),
    ensures
        in_step(after, s, step),
{
    assert forall|i: int| 0 <= i < s.secrets.len() implies #[trigger] kept_at(after, s, i) by {
        assert(kept_at(before, s, i));
        assert(before.secrets.contains_key(kind_at(i)));
    }
    assert(before.secrets.contains_key(kind_at(s.secrets.len() as int)) ==> after.secrets.contains_key(
        kind_at(s.secrets.len() as int),
    ));
    if s.phase == JoinPhase::Ready {
        assert(secrets_of(after, s.found->0));
    }
}

/// A secret that is kept is never written over or removed.
pub proof fn law_kept_secrets_stay(w: Stored, s: Preparing, step: JoinStep, kind: SecretKind)
    requires
        w.secrets.contains_key(kind),
    ensures
        performed(w, s, step).secrets.contains_key(kind),
        performed(w, s, step).secrets[kind] == w.secrets[kind],
{
}

/// A preparation that starts anew uses the secrets that are kept: where all are there and nothing
/// was prepared yet, it comes to making the request with exactly these, and keeps no others.
pub proof fn law_retry_uses_the_kept_secrets(
    w: Stored,
    network: NetworkId,
    roles: MemberRoles,
    expires_at_ms: u64,
    drawn: [u8; 32],
) -> (ready: Preparing)
    requires
        !w.joined,
        w.request is None,
        forall|kind: SecretKind|
            #![trigger w.secrets.contains_key(kind)]
            w.secrets.contains_key(kind) && w.secrets[kind].len() == 32,
    ensures
        ({
            let a = preparing_next(
                preparing_start(network, roles, expires_at_ms, drawn),
                Outcome::Head { joined: false },
            );
            let b = preparing_next(a.0, Outcome::Request(None));
            let c = preparing_next(b.0, Outcome::Secret(w.secrets[SecretKind::Signing]));
            let d = preparing_next(c.0, Outcome::Secret(w.secrets[SecretKind::Encryption]));
            let e = preparing_next(d.0, Outcome::Secret(w.secrets[SecretKind::Endpoint]));
            &&& b.1 == JoinStep::OpenSecret(SecretKind::Signing)
            &&& c.1 == JoinStep::OpenSecret(SecretKind::Encryption)
            &&& d.1 == JoinStep::OpenSecret(SecretKind::Endpoint)
            &&& e == (ready, JoinStep::DrawNonce)
        }),
        ready.secrets.len() == 3,
        ready.secrets[0]@ == w.secrets[SecretKind::Signing],
        ready.secrets[1]@ == w.secrets[SecretKind::Encryption],
        ready.secrets[2]@ == w.secrets[SecretKind::Endpoint],
{
    assert(w.secrets.contains_key(SecretKind::Signing));
    assert(w.secrets.contains_key(SecretKind::Encryption));
    assert(w.secrets.contains_key(SecretKind::Endpoint));
    wire::lemma_array_exists::<32>(w.secrets[SecretKind::Signing]);
    wire::lemma_array_exists::<32>(w.secrets[SecretKind::Encryption]);
    wire::lemma_array_exists::<32>(w.secrets[SecretKind::Endpoint]);
    let a = preparing_next(
        preparing_start(network, roles, expires_at_ms, drawn),
        Outcome::Head { joined: false },
    );
    let b = preparing_next(a.0, Outcome::Request(None));
    let c = preparing_next(b.0, Outcome::Secret(w.secrets[SecretKind::Signing]));
    let d = preparing_next(c.0, Outcome::Secret(w.secrets[SecretKind::Encryption]));
    let e = preparing_next(d.0, Outcome::Secret(w.secrets[SecretKind::Endpoint]));
    e.0
}

/// Any number of preparations for one network that work on one store at the same time, each with
/// the step that it does next.
pub struct Preparations {
    pub stored: Stored,
    pub each: Seq<(Preparing, JoinStep)>,
}

/// What happens next among them.
pub enum Move {
    /// Another preparation begins.
    Begin { roles: MemberRoles, expires_at_ms: u64, drawn: [u8; 32] },
    /// A preparation does its step, and is answered.
    Answered { index: int, outcome: Outcome },
    /// A preparation does its step, but the answer is lost.
    Unanswered { index: int },
    /// Others change what is stored.
    Other { after: Stored },
}

/// Whether this can happen: a preparation is answered as the store answers, and others take
/// nothing away and leave no request without its secrets.
pub open spec fn possible(r: Preparations, m: Move) -> bool {
    match m {
        Move::Begin { .. } => true,
        Move::Answered { index, outcome } => 0 <= index < r.each.len() && answered(
            r.stored,
            r.each[index].0,
            r.each[index].1,
            outcome,
        ),
        Move::Unanswered { index } => 0 <= index < r.each.len(),
        Move::Other { after } => grown(r.stored, after) && request_has_its_secrets(after),
    }
}

/// What comes of it.
pub open spec fn moved(r: Preparations, m: Move, network: NetworkId) -> Preparations {
    match m {
        Move::Begin { roles, expires_at_ms, drawn } => Preparations {
            each: r.each.push(
                (preparing_start(network, roles, expires_at_ms, drawn), JoinStep::ReadHead),
            ),
            ..r
        },
        Move::Answered { index, outcome } => {
            let (s, step) = r.each[index];
            Preparations {
                stored: performed(r.stored, s, step),
                each: r.each.update(index, preparing_next(s, outcome)),
            }
        },
        Move::Unanswered { index } => Preparations {
            stored: performed(r.stored, r.each[index].0, r.each[index].1),
            ..r
        },
        Move::Other { after } => Preparations { stored: after, ..r },
    }
}

/// Where preparations stand after all this has happened, from a store on which none has begun.
pub open spec fn after_moves(w: Stored, moves: Seq<Move>, network: NetworkId) -> Preparations
    decreases moves.len(),
{
    if moves.len() == 0 {
        Preparations { stored: w, each: Seq::empty() }
    } else {
        moved(after_moves(w, moves.drop_last(), network), moves.last(), network)
    }
}

/// Whether all this can happen, one thing after the other.
pub open spec fn all_possible(w: Stored, moves: Seq<Move>, network: NetworkId) -> bool
    decreases moves.len(),
{
    if moves.len() == 0 {
        true
    } else {
        all_possible(w, moves.drop_last(), network) && possible(
            after_moves(w, moves.drop_last(), network),
            moves.last(),
        )
    }
}

/// Whether all preparations are in step with what is stored.
pub open spec fn all_in_step(r: Preparations) -> bool {
    &&& request_has_its_secrets(r.stored)
    &&& forall|i: int|
        0 <= i < r.each.len() ==> in_step(r.stored, (#[trigger] r.each[i]).0, r.each[i].1)
}

/// A step takes nothing away, and leaves no request without its secrets.
proof fn lemma_steps_grow(w: Stored, s: Preparing, step: JoinStep)
    requires
        in_step(w, s, step),
    ensures
        grown(w, performed(w, s, step)),
        request_has_its_secrets(performed(w, s, step)),
{
    if s.phase == JoinPhase::Writing && w.request is None {
        let made = s.fresh->0;
        join::law_prepared_round_trip(made);
        assert(kept_at(w, s, 0) && kept_at(w, s, 1) && kept_at(w, s, 2));
        assert(secrets_of(w, made));
    }
}

proof fn lemma_moves_keep_step(w: Stored, moves: Seq<Move>, network: NetworkId)
    requires
        request_has_its_secrets(w),
        all_possible(w, moves, network),
    ensures
        all_in_step(after_moves(w, moves, network)),
    decreases moves.len(),
{
    if moves.len() > 0 {
        lemma_moves_keep_step(w, moves.drop_last(), network);
        let before = after_moves(w, moves.drop_last(), network);
        let after = moved(before, moves.last(), network);
        match moves.last() {
            Move::Begin { roles, expires_at_ms, drawn } => {
                law_preparation_begins_in_step(
                    before.stored,
                    network,
                    roles,
                    expires_at_ms,
                    drawn,
                );
            },
            Move::Answered { index, outcome } => {
                let (s, step) = before.each[index];
                assert(in_step(before.stored, s, step));
                lemma_steps_grow(before.stored, s, step);
                law_no_request_lacks_its_secrets(before.stored, s, step, outcome);
            },
            Move::Unanswered { index } => {
                let (s, step) = before.each[index];
                assert(in_step(before.stored, s, step));
                lemma_steps_grow(before.stored, s, step);
            },
            Move::Other { .. } => {},
        }
        assert forall|i: int| 0 <= i < after.each.len() implies in_step(
            after.stored,
            (#[trigger] after.each[i]).0,
            after.each[i].1,
        ) by {
            if i < before.each.len() && after.each[i] == before.each[i] {
                let (t, next) = before.each[i];
                assert(in_step(before.stored, t, next));
                law_others_do_not_get_in_the_way(before.stored, after.stored, t, next);
            }
        }
    }
}

/// However preparations for one network go on one store, one after the other or at the same time,
/// and wherever some are cut off: any two that are ready have the same request, it is the one that
/// is stored, and the secrets of its keys are kept. At every moment the stored request has its
/// secrets.
pub proof fn law_all_preparations_find_one_request(
    w: Stored,
    moves: Seq<Move>,
    network: NetworkId,
    i: int,
    j: int,
)
    requires
        request_has_its_secrets(w),
        all_possible(w, moves, network),
        ({
            let r = after_moves(w, moves, network);
            &&& 0 <= i < r.each.len()
            &&& 0 <= j < r.each.len()
        }),
    ensures
        ({
            let r = after_moves(w, moves, network);
            let s = r.each[i].0;
            let t = r.each[j].0;
            &&& request_has_its_secrets(r.stored)
            &&& s.phase == JoinPhase::Ready ==> {
                &&& s.found is Some
                &&& r.stored.request is Some
                &&& join::read_prepared(r.stored.request->0) == s.found
                &&& secrets_of(r.stored, s.found->0)
            }
            &&& s.phase == JoinPhase::Ready && t.phase == JoinPhase::Ready ==> s.found == t.found
        }),
{
    lemma_moves_keep_step(w, moves, network);
    let r = after_moves(w, moves, network);
    assert(in_step(r.stored, r.each[i].0, r.each[i].1));
    assert(in_step(r.stored, r.each[j].0, r.each[j].1));
}

/// Whether what is stored lets a request be prepared: the network was not joined, a request that is
/// there can be read, and every secret that is kept is as long as a key.
pub open spec fn allows_a_request(w: Stored) -> bool {
    &&& !w.joined
    &&& w.request matches Some(bytes) ==> join::read_prepared(bytes) is Some
    &&& forall|kind: SecretKind| #[trigger]
        w.secrets.contains_key(kind) ==> w.secrets[kind].len() == 32
}

/// At most this many steps are left.
pub open spec fn steps_left(s: Preparing) -> int {
    let missing = 5 * (3 - s.secrets.len());
    match s.phase {
        JoinPhase::CheckingHead => 40,
        JoinPhase::ReadingRequest => 39,
        JoinPhase::Opening => 7 + missing,
        JoinPhase::Drawing => 6 + missing,
        JoinPhase::Keeping => 5 + missing,
        JoinPhase::Reopening => 4 + missing,
        JoinPhase::Composing => 3,
        JoinPhase::Writing => 2,
        JoinPhase::Rereading => 1,
        JoinPhase::Ready => 0,
        JoinPhase::Failed => 0,
    }
}

/// A preparation comes to a request: as long as what is stored allows one and the drawn nonce makes
/// one with the secrets, every answer brings it a step further, and it neither gives up nor loses
/// its turn, until it is ready with a request.
pub proof fn law_preparation_comes_to_a_request(
    w: Stored,
    s: Preparing,
    step: JoinStep,
    outcome: Outcome,
)
    requires
        in_step(w, s, step),
        answered(w, s, step, outcome),
        allows_a_request(w),
        outcome matches Outcome::Nonce(nonce) ==> membership::composed(
            s.network,
            s.secrets[0]@,
            s.secrets[1]@,
            s.secrets[2]@,
            nonce,
            s.roles,
            s.expires_at_ms,
        ) is Ok,
    ensures
        ({
            let (next, then_do) = preparing_next(s, outcome);
            &&& !(then_do is Fail)
            &&& !(then_do is SecretGone)
            &&& !(then_do is OutOfTurn)
            &&& next.phase != JoinPhase::Failed
            &&& 0 <= steps_left(next) < steps_left(s)
            &&& steps_left(next) == 0 <==> then_do is Ready
            &&& then_do is Ready ==> next.found is Some
            &&& allows_a_request(performed(w, s, step))
        }),
{
    if s.phase == JoinPhase::Writing {
        join::law_prepared_round_trip(s.fresh->0);
    }
}

/// A network that was joined gets no request, a request that is there is taken up as it is, and a
/// secret that is not as long as a key is taken as corrupt.
pub proof fn law_when_no_request_is_made(s: Preparing, bytes: Seq<u8>)
    ensures
        s.phase == JoinPhase::CheckingHead ==> preparing_next(s, Outcome::Head { joined: true }).1
            == JoinStep::Fail(MembershipError::AlreadyJoined) && preparing_next(
            s,
            Outcome::Head { joined: false },
        ).1 == JoinStep::ReadRequest,
        s.phase == JoinPhase::ReadingRequest || s.phase == JoinPhase::Rereading ==> {
            let (next, then_do) = preparing_next(s, Outcome::Request(Some(bytes)));
            then_do is Ready <==> join::read_prepared(bytes) is Some && next.found
                == join::read_prepared(bytes)
        },
        s.phase == JoinPhase::Opening || s.phase == JoinPhase::Reopening ==> (preparing_next(
            s,
            Outcome::Secret(bytes),
        ).1 == JoinStep::Fail(MembershipError::CorruptSecret) <==> bytes.len() != 32),
{
}

} // verus!
