//! How the identity of a client is loaded or made, so that no record ever lacks its secret.
use crate::identifiers::{AppAddr, NetworkId};
use crate::net::identity;
use crate::net::identity::{decode_record, Identity, IdentityError, PersistentClientIdentity};
use crate::outside;
use crate::outside::endpoint_generate;
use vstd::prelude::*;

verus! {

/// How far an identity has been loaded or made.
#[derive(Clone, Copy, Debug, PartialEq, Eq, Structural)]
pub enum SetupPhase {
    /// Looks for a record.
    Reading,
    /// Opens the secret of the record.
    Opening,
    /// Draws a new secret key.
    Drawing,
    /// Keeps the new secret.
    Keeping,
    /// Checks that the new secret was kept.
    Checking,
    /// Writes the new record.
    Writing,
    /// Looks for the record that was there first.
    Rereading,
    /// Opens the secret of the record that was there first.
    Reopening,
    /// Discards the new secret, which no record names.
    Discarding,
    /// Has an identity.
    Ready,
    /// Gave up.
    Failed,
}

/// What is to be done next.
#[derive(Clone, Copy, Debug, PartialEq, Eq)]
pub enum SetupStep {
    /// Read the record of the application.
    ReadRecord,
    /// Open the secret with this name.
    OpenSecret { secret_id: [u8; 32] },
    /// Draw a secret key by chance.
    DrawSecret,
    /// Keep the secret key of the new identity under its name.
    KeepSecret,
    /// Open the secret of the new identity.
    ReadBack,
    /// Write the record of the new identity, unless there is one.
    WriteRecord,
    /// Remove the secret of the new identity.
    DiscardSecret,
    /// Take the identity.
    Ready,
    /// Give up.
    Fail(IdentityError),
    /// Nothing: this was not what was waited for.
    OutOfTurn,
}

/// What came of the last step.
pub enum SetupEvent {
    Record(Option<Vec<u8>>),
    Secret(Vec<u8>),
    Drawn([u8; 32]),
    Kept,
    Written,
    /// There is a record already.
    Conflict,
    Discarded,
}

/// The contents of what came of a step.
pub enum Outcome {
    Record(Option<Seq<u8>>),
    Secret(Seq<u8>),
    Drawn([u8; 32]),
    Kept,
    Written,
    Conflict,
    Discarded,
}

impl View for SetupEvent {
    type V = Outcome;

    open spec fn view(&self) -> Outcome {
        match self {
            SetupEvent::Record(Some(record)) => Outcome::Record(Some(record@)),
            SetupEvent::Record(None) => Outcome::Record(None),
            SetupEvent::Secret(secret) => Outcome::Secret(secret@),
            SetupEvent::Drawn(secret) => Outcome::Drawn(*secret),
            SetupEvent::Kept => Outcome::Kept,
            SetupEvent::Written => Outcome::Written,
            SetupEvent::Conflict => Outcome::Conflict,
            SetupEvent::Discarded => Outcome::Discarded,
        }
    }
}

/// Loads the identity of a client for an application in a network, or makes a new one: the new
/// secret is kept and read back before the record that names it is written.
pub struct IdentitySetup {
    network_id: NetworkId,
    app_addr: AppAddr,
    phase: SetupPhase,
    fresh: Option<PersistentClientIdentity>,
    record: Vec<u8>,
    found: Option<PersistentClientIdentity>,
}

/// Where loading or making an identity stands.
#[verifier::ext_equal]
pub struct Setup {
    pub network: NetworkId,
    pub app: AppAddr,
    pub phase: SetupPhase,
    pub fresh: Option<Identity>,
    pub record: Seq<u8>,
    pub found: Option<Identity>,
}

/// The parts of an optional identity.
pub open spec fn parts(identity: Option<PersistentClientIdentity>) -> Option<Identity> {
    match identity {
        Some(identity) => Some(identity@),
        None => None,
    }
}

impl View for IdentitySetup {
    type V = Setup;

    closed spec fn view(&self) -> Setup {
        Setup {
            network: self.network_id,
            app: self.app_addr,
            phase: self.phase,
            fresh: parts(self.fresh),
            record: self.record@,
            found: parts(self.found),
        }
    }
}

/// Before anything was done.
pub open spec fn setup_start(network: NetworkId, app: AppAddr) -> Setup {
    Setup {
        network,
        app,
        phase: SetupPhase::Reading,
        fresh: None,
        record: Seq::empty(),
        found: None,
    }
}

/// Gives up.
pub open spec fn gives_up(s: Setup, error: IdentityError) -> (Setup, SetupStep) {
    (Setup { phase: SetupPhase::Failed, ..s }, SetupStep::Fail(error))
}

/// Goes on with a record that was found: its secret is to be opened.
pub open spec fn with_record(s: Setup, record: Seq<u8>, phase: SetupPhase) -> (Setup, SetupStep) {
    match identity::read_record(record) {
        Err(error) => gives_up(s, error),
        Ok(named) => (
            Setup { record, phase, ..s },
            SetupStep::OpenSecret { secret_id: named.secret_id },
        ),
    }
}

/// Goes on with the secret of the record that was found. A new secret that this record does not
/// name is discarded.
pub open spec fn with_secret(s: Setup, secret: Seq<u8>) -> (Setup, SetupStep) {
    match identity::restore_verdict(s.record, secret, s.network, s.app) {
        Err(error) => gives_up(s, error),
        Ok(restored) => match s.fresh {
            Some(fresh) => if restored.secret_id != fresh.secret_id {
                (
                    Setup { phase: SetupPhase::Discarding, found: Some(restored), ..s },
                    SetupStep::DiscardSecret,
                )
            } else {
                (
                    Setup { phase: SetupPhase::Ready, found: Some(restored), ..s },
                    SetupStep::Ready,
                )
            },
            None => (
                Setup { phase: SetupPhase::Ready, found: Some(restored), ..s },
                SetupStep::Ready,
            ),
        },
    }
}

/// Goes on with the new secret as it was read back.
pub open spec fn with_kept(s: Setup, kept: Seq<u8>) -> (Setup, SetupStep) {
    match s.fresh {
        Some(fresh) => if kept == fresh.secret_key {
            (Setup { phase: SetupPhase::Writing, ..s }, SetupStep::WriteRecord)
        } else {
            gives_up(s, IdentityError::SecretPublicKeyMismatch)
        },
        None => (s, SetupStep::OutOfTurn),
    }
}

/// How loading or making an identity goes on.
pub open spec fn setup_next(s: Setup, outcome: Outcome) -> (Setup, SetupStep) {
    match (s.phase, outcome) {
        (SetupPhase::Reading, Outcome::Record(None)) => (
            Setup { phase: SetupPhase::Drawing, ..s },
            SetupStep::DrawSecret,
        ),
        (SetupPhase::Reading, Outcome::Record(Some(record))) => with_record(
            s,
            record,
            SetupPhase::Opening,
        ),
        (SetupPhase::Opening, Outcome::Secret(secret)) => with_secret(s, secret),
        (SetupPhase::Drawing, Outcome::Drawn(secret)) => (
            Setup {
                phase: SetupPhase::Keeping,
                fresh: Some(identity::identity_with(secret@, s.network, s.app)),
                ..s
            },
            SetupStep::KeepSecret,
        ),
        (SetupPhase::Keeping, Outcome::Kept) => (
            Setup { phase: SetupPhase::Checking, ..s },
            SetupStep::ReadBack,
        ),
        (SetupPhase::Checking, Outcome::Secret(kept)) => with_kept(s, kept),
        (SetupPhase::Writing, Outcome::Written) => (
            Setup { phase: SetupPhase::Ready, found: s.fresh, fresh: None, ..s },
            SetupStep::Ready,
        ),
        (SetupPhase::Writing, Outcome::Conflict) => (
            Setup { phase: SetupPhase::Rereading, ..s },
            SetupStep::ReadRecord,
        ),
        (SetupPhase::Rereading, Outcome::Record(None)) => gives_up(
            s,
            IdentityError::MissingAfterConcurrentCreate,
        ),
        (SetupPhase::Rereading, Outcome::Record(Some(record))) => with_record(
            s,
            record,
            SetupPhase::Reopening,
        ),
        (SetupPhase::Reopening, Outcome::Secret(secret)) => with_secret(s, secret),
        (SetupPhase::Discarding, Outcome::Discarded) => (
            Setup { phase: SetupPhase::Ready, ..s },
            SetupStep::Ready,
        ),
        _ => (s, SetupStep::OutOfTurn),
    }
}

impl IdentitySetup {
    /// Starts; the first step is to read the record.
    pub fn new(network_id: NetworkId, app_addr: AppAddr) -> (setup: Self)
        ensures
            setup@ == setup_start(network_id, app_addr),
    {
        let setup = IdentitySetup {
            network_id,
            app_addr,
            phase: SetupPhase::Reading,
            fresh: None,
            record: Vec::new(),
            found: None,
        };
        assert(setup@ =~= setup_start(network_id, app_addr));
        setup
    }

    /// The identity that is being made.
    pub fn fresh(&self) -> (fresh: Option<&PersistentClientIdentity>)
        ensures
            match fresh {
                Some(fresh) => self@.fresh == Some(fresh@),
                None => self@.fresh is None,
            },
    {
        self.fresh.as_ref()
    }

    /// The identity, once it is ready.
    pub fn finish(self) -> (found: Option<PersistentClientIdentity>)
        ensures
            parts(found) == (if self@.phase == SetupPhase::Ready {
                self@.found
            } else {
                None
            }),
    {
        if self.phase == SetupPhase::Ready {
            self.found
        } else {
            None
        }
    }

    /// Goes on after a step.
    pub fn step(&mut self, event: SetupEvent) -> (step: SetupStep)
        ensures
            (final(self)@, step) == setup_next(old(self)@, event@),
            final(self)@.phase == SetupPhase::Keeping && step == SetupStep::KeepSecret
                ==> outside::endpoint_key_ok(
                identity::endpoint_of(final(self)@.fresh->0.secret_key)@,
            ),
    {
        match (self.phase, event) {
            (SetupPhase::Reading, SetupEvent::Record(None)) => {
                self.phase = SetupPhase::Drawing;
                SetupStep::DrawSecret
            },
            (SetupPhase::Reading, SetupEvent::Record(Some(record))) => {
                self.read(record, SetupPhase::Opening)
            },
            (SetupPhase::Opening, SetupEvent::Secret(secret)) => self.opened(secret),
            (SetupPhase::Drawing, SetupEvent::Drawn(secret)) => {
                self.phase = SetupPhase::Keeping;
                self.fresh = Some(
                    PersistentClientIdentity::new(secret, self.network_id, self.app_addr),
                );
                SetupStep::KeepSecret
            },
            (SetupPhase::Keeping, SetupEvent::Kept) => {
                self.phase = SetupPhase::Checking;
                SetupStep::ReadBack
            },
            (SetupPhase::Checking, SetupEvent::Secret(kept)) => self.read_back(kept),
            (SetupPhase::Writing, SetupEvent::Written) => {
                self.phase = SetupPhase::Ready;
                self.found = self.fresh.take();
                SetupStep::Ready
            },
            (SetupPhase::Writing, SetupEvent::Conflict) => {
                self.phase = SetupPhase::Rereading;
                SetupStep::ReadRecord
            },
            (SetupPhase::Rereading, SetupEvent::Record(None)) => {
                self.phase = SetupPhase::Failed;
                SetupStep::Fail(IdentityError::MissingAfterConcurrentCreate)
            },
            (SetupPhase::Rereading, SetupEvent::Record(Some(record))) => {
                self.read(record, SetupPhase::Reopening)
            },
            (SetupPhase::Reopening, SetupEvent::Secret(secret)) => self.opened(secret),
            (SetupPhase::Discarding, SetupEvent::Discarded) => {
                self.phase = SetupPhase::Ready;
                SetupStep::Ready
            },
            _ => SetupStep::OutOfTurn,
        }
    }

    /// Goes on with a secret key that rests on chance.
    pub fn draw(&mut self) -> (step: SetupStep)
        ensures
            exists|secret: [u8; 32]|
                (final(self)@, step) == #[trigger] setup_next(old(self)@, Outcome::Drawn(secret)),
            final(self)@.phase == SetupPhase::Keeping && step == SetupStep::KeepSecret
                ==> outside::endpoint_key_ok(
                identity::endpoint_of(final(self)@.fresh->0.secret_key)@,
            ),
    {
        let secret: [u8; 32] = endpoint_generate();
        let step: SetupStep = self.step(SetupEvent::Drawn(secret));
        assert((self@, step) == setup_next(old(self)@, Outcome::Drawn(secret)));
        step
    }

    fn read(&mut self, record: Vec<u8>, phase: SetupPhase) -> (step: SetupStep)
        ensures
            (final(self)@, step) == with_record(old(self)@, record@, phase),
    {
        match decode_record(record.as_slice()) {
            Ok(named) => {
                self.record = record;
                self.phase = phase;
                SetupStep::OpenSecret { secret_id: named.secret_id }
            },
            Err(error) => {
                self.phase = SetupPhase::Failed;
                SetupStep::Fail(error)
            },
        }
    }

    fn opened(&mut self, secret: Vec<u8>) -> (step: SetupStep)
        ensures
            (final(self)@, step) == with_secret(old(self)@, secret@),
    {
        match PersistentClientIdentity::restore(
            self.record.as_slice(),
            secret.as_slice(),
            self.network_id,
            self.app_addr,
        ) {
            Ok(restored) => {
                let discard: bool = match &self.fresh {
                    Some(fresh) => fresh.superseded_by(&restored),
                    None => false,
                };
                self.found = Some(restored);
                if discard {
                    self.phase = SetupPhase::Discarding;
                    SetupStep::DiscardSecret
                } else {
                    self.phase = SetupPhase::Ready;
                    SetupStep::Ready
                }
            },
            Err(error) => {
                self.phase = SetupPhase::Failed;
                SetupStep::Fail(error)
            },
        }
    }

    fn read_back(&mut self, kept: Vec<u8>) -> (step: SetupStep)
        ensures
            (final(self)@, step) == with_kept(old(self)@, kept@),
    {
        let confirmed: Option<Result<(), IdentityError>> = match &self.fresh {
            Some(fresh) => Some(fresh.confirm_secret(kept.as_slice())),
            None => None,
        };
        match confirmed {
            Some(Ok(())) => {
                self.phase = SetupPhase::Writing;
                SetupStep::WriteRecord
            },
            Some(Err(error)) => {
                self.phase = SetupPhase::Failed;
                SetupStep::Fail(error)
            },
            None => SetupStep::OutOfTurn,
        }
    }
}

/// What is stored: the record of the application, if any, and the secrets by their names.
#[verifier::ext_equal]
pub struct Stored {
    pub record: Option<Seq<u8>>,
    pub secrets: Map<[u8; 32], Seq<u8>>,
}

/// Whether the secret that the record names is there.
pub open spec fn record_has_its_secret(w: Stored) -> bool {
    match w.record {
        Some(record) => identity::read_record(record) matches Ok(named)
            ==> w.secrets.contains_key(named.secret_id),
        None => true,
    }
}

/// What a step does to what is stored. A store keeps no secret under the name of another, and
/// writes no record over another.
pub open spec fn performed(w: Stored, s: Setup, step: SetupStep) -> Stored {
    match (step, s.fresh) {
        (SetupStep::KeepSecret, Some(fresh)) => if w.secrets.contains_key(fresh.secret_id) {
            w
        } else {
            Stored { secrets: w.secrets.insert(fresh.secret_id, fresh.secret_key), ..w }
        },
        (SetupStep::WriteRecord, Some(fresh)) => if w.record is None {
            Stored { record: Some(identity::record_bytes(identity::record_of(fresh))), ..w }
        } else {
            w
        },
        (SetupStep::DiscardSecret, Some(fresh)) => Stored {
            secrets: w.secrets.remove(fresh.secret_id),
            ..w
        },
        _ => w,
    }
}

/// Whether stores that hold this answer a step so.
pub open spec fn answered(w: Stored, s: Setup, step: SetupStep, outcome: Outcome) -> bool {
    match (step, s.fresh) {
        (SetupStep::ReadRecord, _) => outcome == Outcome::Record(w.record),
        (SetupStep::OpenSecret { secret_id }, _) => w.secrets.contains_key(secret_id) && outcome
            == Outcome::Secret(w.secrets[secret_id]),
        (SetupStep::DrawSecret, _) => outcome matches Outcome::Drawn(secret)
            && outside::endpoint_key_ok(identity::endpoint_of(secret@)@),
        (SetupStep::KeepSecret, Some(fresh)) => outcome == Outcome::Kept && (w.secrets.contains_key(
            fresh.secret_id,
        ) ==> w.secrets[fresh.secret_id] == fresh.secret_key),
        (SetupStep::ReadBack, Some(fresh)) => w.secrets.contains_key(fresh.secret_id) && outcome
            == Outcome::Secret(w.secrets[fresh.secret_id]),
        (SetupStep::WriteRecord, _) => outcome == (if w.record is None {
            Outcome::Written
        } else {
            Outcome::Conflict
        }),
        (SetupStep::DiscardSecret, _) => outcome == Outcome::Discarded,
        _ => false,
    }
}

/// Whether the new identity was made for this application and its secret is a key.
pub open spec fn fresh_ok(s: Setup) -> bool {
    &&& s.fresh matches Some(fresh)
    &&& fresh == identity::identity_with(fresh.secret_key, s.network, s.app)
    &&& fresh.secret_key.len() == 32
    &&& outside::endpoint_key_ok(identity::endpoint_of(fresh.secret_key)@)
}

/// Whether the secret of the new identity is kept.
pub open spec fn fresh_kept(w: Stored, s: Setup) -> bool {
    w.secrets.contains_key(s.fresh->0.secret_id) && w.secrets[s.fresh->0.secret_id]
        == s.fresh->0.secret_key
}

/// Whether an identity is the one that what is stored gives back.
pub open spec fn restores(w: Stored, s: Setup, found: Identity) -> bool {
    &&& w.record matches Some(record)
    &&& identity::read_record(record) matches Ok(named)
    &&& w.secrets.contains_key(named.secret_id)
    &&& named.secret_id == found.secret_id
    &&& identity::restore_verdict(record, w.secrets[named.secret_id], s.network, s.app) == Ok::<
        Identity,
        IdentityError,
    >(found)
}

/// What holds between what is stored, where the setup stands, and the step that comes next.
pub open spec fn in_step(w: Stored, s: Setup, step: SetupStep) -> bool {
    &&& record_has_its_secret(w)
    &&& match s.phase {
        SetupPhase::Reading => step == SetupStep::ReadRecord && s.fresh is None,
        SetupPhase::Opening => {
            &&& s.fresh is None
            &&& w.record == Some(s.record)
            &&& identity::read_record(s.record) matches Ok(named)
            &&& step == (SetupStep::OpenSecret { secret_id: named.secret_id })
        },
        SetupPhase::Drawing => step == SetupStep::DrawSecret && s.fresh is None,
        SetupPhase::Keeping => step == SetupStep::KeepSecret && fresh_ok(s),
        SetupPhase::Checking => {
            &&& step == SetupStep::ReadBack
            &&& fresh_ok(s)
            &&& w.record is None ==> fresh_kept(w, s)
        },
        SetupPhase::Writing => {
            &&& step == SetupStep::WriteRecord
            &&& fresh_ok(s)
            &&& w.record is None ==> fresh_kept(w, s)
        },
        SetupPhase::Rereading => step == SetupStep::ReadRecord && fresh_ok(s) && w.record is Some,
        SetupPhase::Reopening => {
            &&& fresh_ok(s)
            &&& w.record == Some(s.record)
            &&& identity::read_record(s.record) matches Ok(named)
            &&& step == (SetupStep::OpenSecret { secret_id: named.secret_id })
        },
        SetupPhase::Discarding => {
            &&& step == SetupStep::DiscardSecret
            &&& s.found matches Some(found) && restores(w, s, found)
            &&& s.fresh matches Some(fresh) && fresh.secret_id != s.found->0.secret_id
        },
        SetupPhase::Ready => {
            &&& step == SetupStep::Ready
            &&& s.found matches Some(found) && restores(w, s, found)
        },
        SetupPhase::Failed => step is Fail,
    }
}

/// A setup begins in step with whatever is stored, if the record has its secret.
pub proof fn law_setup_begins_in_step(w: Stored, network: NetworkId, app: AppAddr)
    requires
        record_has_its_secret(w),
    ensures
        in_step(w, setup_start(network, app), SetupStep::ReadRecord),
{
}

/// Wherever a setup is cut off, before a step, right after it, or once it is answered, the record
/// has its secret: at worst a secret is left that no record names. And a setup that is ready has
/// the identity that what is stored gives back.
pub proof fn law_no_record_lacks_its_secret(w: Stored, s: Setup, step: SetupStep, outcome: Outcome)
    requires
        in_step(w, s, step),
        answered(w, s, step, outcome),
    ensures
        record_has_its_secret(performed(w, s, step)),
        in_step(performed(w, s, step), setup_next(s, outcome).0, setup_next(s, outcome).1),
{
    let after = performed(w, s, step);
    if s.phase == SetupPhase::Writing {
        let fresh = s.fresh->0;
        identity::law_record_round_trip(identity::record_of(fresh));
        identity::law_identity_is_restored(fresh.secret_key, s.network, s.app);
    }
    if s.phase == SetupPhase::Drawing {
        let secret = outcome->Drawn_0;
        assert(secret@.len() == 32);
    }
}

/// Whether nothing was taken away: the record and the secrets that were there still are.
pub open spec fn grown(before: Stored, after: Stored) -> bool {
    &&& before.record is Some ==> after.record == before.record
    &&& forall|id: [u8; 32]|
        #![trigger before.secrets.contains_key(id)]
        before.secrets.contains_key(id) ==> after.secrets.contains_key(id) && after.secrets[id]
            == before.secrets[id]
}

/// Others may keep secrets and write the first record meanwhile: as long as they take away neither
/// the record nor the secrets that matter here, a setup stays in step.
pub proof fn law_others_do_not_get_in_the_way(before: Stored, after: Stored, s: Setup, step: SetupStep)
    requires
        in_step(before, s, step),
        record_has_its_secret(after),
        grown(before, after),
    ensures
        in_step(after, s, step),
{
}

/// A new secret is never written over, and never taken away once a record names it: the only
/// secret that is ever removed is the new one, and only where the record names another.
pub proof fn law_only_unnamed_secrets_are_discarded(w: Stored, s: Setup, step: SetupStep)
    requires
        in_step(w, s, step),
        performed(w, s, step).secrets != w.secrets,
        step != SetupStep::KeepSecret,
    ensures
        step == SetupStep::DiscardSecret,
        w.record matches Some(record) && identity::read_record(record) matches Ok(named)
            && named.secret_id != s.fresh->0.secret_id,
{
}

/// Once a setup is ready, another one for the same application finds the same identity, and
/// changes nothing.
pub proof fn law_identity_is_stable(w: Stored, s: Setup)
    requires
        in_step(w, s, SetupStep::Ready),
        s.phase == SetupPhase::Ready,
    ensures
        ({
            let found = s.found->0;
            let first = setup_next(setup_start(s.network, s.app), Outcome::Record(w.record));
            let second = setup_next(first.0, Outcome::Secret(w.secrets[found.secret_id]));
            &&& first.1 == (SetupStep::OpenSecret { secret_id: found.secret_id })
            &&& second.1 == SetupStep::Ready
            &&& second.0.found == Some(found)
            &&& second.0.fresh is None
        }),
{
}

/// Any number of setups for one application that work on one store at the same time, each with the
/// step that it does next.
pub struct Setups {
    pub stored: Stored,
    pub setups: Seq<(Setup, SetupStep)>,
}

/// What happens next among them.
pub enum Move {
    /// Another setup begins.
    Begin,
    /// A setup does its step, and is answered.
    Answered { index: int, outcome: Outcome },
    /// A setup does its step, but the answer is lost.
    Unanswered { index: int },
    /// Others change what is stored.
    Other { after: Stored },
}

/// Whether this can happen: a setup is answered as the store answers, and others take nothing away
/// and leave no record without its secret.
pub open spec fn possible(r: Setups, m: Move) -> bool {
    match m {
        Move::Begin => true,
        Move::Answered { index, outcome } => 0 <= index < r.setups.len() && answered(
            r.stored,
            r.setups[index].0,
            r.setups[index].1,
            outcome,
        ),
        Move::Unanswered { index } => 0 <= index < r.setups.len(),
        Move::Other { after } => grown(r.stored, after) && record_has_its_secret(after),
    }
}

/// What comes of it.
pub open spec fn moved(r: Setups, m: Move, network: NetworkId, app: AppAddr) -> Setups {
    match m {
        Move::Begin => Setups {
            setups: r.setups.push((setup_start(network, app), SetupStep::ReadRecord)),
            ..r
        },
        Move::Answered { index, outcome } => {
            let (s, step) = r.setups[index];
            Setups {
                stored: performed(r.stored, s, step),
                setups: r.setups.update(index, setup_next(s, outcome)),
            }
        },
        Move::Unanswered { index } => Setups {
            stored: performed(r.stored, r.setups[index].0, r.setups[index].1),
            ..r
        },
        Move::Other { after } => Setups { stored: after, ..r },
    }
}

/// Where setups stand after all this has happened, from a store on which none has begun.
pub open spec fn after_moves(w: Stored, moves: Seq<Move>, network: NetworkId, app: AppAddr) -> Setups
    decreases moves.len(),
{
    if moves.len() == 0 {
        Setups { stored: w, setups: Seq::empty() }
    } else {
        moved(after_moves(w, moves.drop_last(), network, app), moves.last(), network, app)
    }
}

/// Whether all this can happen, one thing after the other.
pub open spec fn all_possible(w: Stored, moves: Seq<Move>, network: NetworkId, app: AppAddr) -> bool
    decreases moves.len(),
{
    if moves.len() == 0 {
        true
    } else {
        all_possible(w, moves.drop_last(), network, app) && possible(
            after_moves(w, moves.drop_last(), network, app),
            moves.last(),
        )
    }
}

/// Whether all setups are in step with what is stored.
pub open spec fn all_in_step(r: Setups, network: NetworkId, app: AppAddr) -> bool {
    &&& record_has_its_secret(r.stored)
    &&& forall|i: int|
        0 <= i < r.setups.len() ==> in_step(r.stored, (#[trigger] r.setups[i]).0, r.setups[i].1)
            && r.setups[i].0.network == network && r.setups[i].0.app == app
}

/// A step that one setup does keeps another in step.
proof fn lemma_step_of_another(w: Stored, s: Setup, step: SetupStep, t: Setup, next: SetupStep)
    requires
        in_step(w, s, step),
        in_step(w, t, next),
        s.network == t.network,
        s.app == t.app,
    ensures
        record_has_its_secret(performed(w, s, step)),
        in_step(performed(w, s, step), t, next),
{
    let after = performed(w, s, step);
    if s.phase == SetupPhase::Writing && w.record is None {
        identity::law_record_round_trip(identity::record_of(s.fresh->0));
    }
    if s.phase != SetupPhase::Discarding {
        law_others_do_not_get_in_the_way(w, after, t, next);
    }
}

proof fn lemma_moves_keep_step(w: Stored, moves: Seq<Move>, network: NetworkId, app: AppAddr)
    requires
        record_has_its_secret(w),
        all_possible(w, moves, network, app),
    ensures
        all_in_step(after_moves(w, moves, network, app), network, app),
    decreases moves.len(),
{
    if moves.len() > 0 {
        lemma_moves_keep_step(w, moves.drop_last(), network, app);
        let before = after_moves(w, moves.drop_last(), network, app);
        let after = moved(before, moves.last(), network, app);
        match moves.last() {
            Move::Begin => {
                law_setup_begins_in_step(before.stored, network, app);
                assert forall|i: int| 0 <= i < after.setups.len() implies in_step(
                    after.stored,
                    (#[trigger] after.setups[i]).0,
                    after.setups[i].1,
                ) && after.setups[i].0.network == network && after.setups[i].0.app == app by {
                    if i < before.setups.len() {
                        assert(after.setups[i] == before.setups[i]);
                    }
                }
            },
            Move::Answered { index, outcome } => {
                let (s, step) = before.setups[index];
                assert(in_step(before.stored, s, step));
                law_no_record_lacks_its_secret(before.stored, s, step, outcome);
                assert forall|i: int| 0 <= i < after.setups.len() implies in_step(
                    after.stored,
                    (#[trigger] after.setups[i]).0,
                    after.setups[i].1,
                ) && after.setups[i].0.network == network && after.setups[i].0.app == app by {
                    if i != index {
                        assert(after.setups[i] == before.setups[i]);
                        let (t, next) = before.setups[i];
                        lemma_step_of_another(before.stored, s, step, t, next);
                    }
                }
            },
            Move::Unanswered { index } => {
                let (s, step) = before.setups[index];
                assert(in_step(before.stored, s, step));
                lemma_step_of_another(before.stored, s, step, s, step);
                assert forall|i: int| 0 <= i < after.setups.len() implies in_step(
                    after.stored,
                    (#[trigger] after.setups[i]).0,
                    after.setups[i].1,
                ) && after.setups[i].0.network == network && after.setups[i].0.app == app by {
                    assert(after.setups[i] == before.setups[i]);
                    let (t, next) = before.setups[i];
                    lemma_step_of_another(before.stored, s, step, t, next);
                }
            },
            Move::Other { after: changed } => {
                assert forall|i: int| 0 <= i < after.setups.len() implies in_step(
                    after.stored,
                    (#[trigger] after.setups[i]).0,
                    after.setups[i].1,
                ) && after.setups[i].0.network == network && after.setups[i].0.app == app by {
                    assert(after.setups[i] == before.setups[i]);
                    let (t, next) = before.setups[i];
                    law_others_do_not_get_in_the_way(before.stored, changed, t, next);
                }
            },
        }
    }
}

/// However setups for one application go on one store, one after the other or at the same time,
/// and wherever some are cut off: any two that are ready have the same identity, with the same
/// secret key, and it is the one that the store gives back. At every moment the record has its
/// secret, and a setup that is about to write the first record has its secret kept.
pub proof fn law_all_setups_find_one_identity(
    w: Stored,
    moves: Seq<Move>,
    network: NetworkId,
    app: AppAddr,
    i: int,
    j: int,
)
    requires
        record_has_its_secret(w),
        all_possible(w, moves, network, app),
        ({
            let r = after_moves(w, moves, network, app);
            &&& 0 <= i < r.setups.len()
            &&& 0 <= j < r.setups.len()
        }),
    ensures
        ({
            let r = after_moves(w, moves, network, app);
            let s = r.setups[i].0;
            let t = r.setups[j].0;
            &&& record_has_its_secret(r.stored)
            &&& s.phase == SetupPhase::Ready ==> s.found is Some && restores(
                r.stored,
                s,
                s.found->0,
            )
            &&& s.phase == SetupPhase::Ready && t.phase == SetupPhase::Ready ==> s.found == t.found
            &&& r.setups[i].1 == SetupStep::WriteRecord && r.stored.record is None ==> fresh_kept(
                r.stored,
                s,
            )
        }),
{
    lemma_moves_keep_step(w, moves, network, app);
    let r = after_moves(w, moves, network, app);
    assert(in_step(r.stored, r.setups[i].0, r.setups[i].1));
    assert(in_step(r.stored, r.setups[j].0, r.setups[j].1));
}

/// Whether the record, if there is one, gives back an identity of the application.
pub open spec fn gives_an_identity(w: Stored, s: Setup) -> bool {
    w.record matches Some(record) ==> {
        &&& identity::read_record(record) matches Ok(named)
        &&& w.secrets.contains_key(named.secret_id)
        &&& identity::restore_verdict(
            record,
            w.secrets[named.secret_id],
            s.network,
            s.app,
        ) is Ok
    }
}

/// At most this many steps are left.
pub open spec fn steps_left(phase: SetupPhase) -> nat {
    match phase {
        SetupPhase::Reading => 8,
        SetupPhase::Drawing => 7,
        SetupPhase::Keeping => 6,
        SetupPhase::Checking => 5,
        SetupPhase::Writing => 4,
        SetupPhase::Rereading => 3,
        SetupPhase::Opening => 2,
        SetupPhase::Reopening => 2,
        SetupPhase::Discarding => 1,
        SetupPhase::Ready => 0,
        SetupPhase::Failed => 0,
    }
}

/// A setup comes to an identity: as long as what is stored gives one back or holds none, and what
/// was kept is still there, every answer brings it a step further, it neither gives up nor loses
/// its turn, and after eight steps it is ready.
pub proof fn law_setup_comes_to_an_identity(w: Stored, s: Setup, step: SetupStep, outcome: Outcome)
    requires
        in_step(w, s, step),
        answered(w, s, step, outcome),
        gives_an_identity(w, s),
        s.phase == SetupPhase::Checking ==> fresh_kept(w, s),
    ensures
        ({
            let (next, then_do) = setup_next(s, outcome);
            &&& !(then_do is Fail)
            &&& !(then_do is OutOfTurn)
            &&& next.phase != SetupPhase::Failed
            &&& steps_left(next.phase) < steps_left(s.phase)
            &&& steps_left(next.phase) == 0 <==> then_do is Ready
            &&& then_do is Ready ==> next.found is Some
            &&& gives_an_identity(performed(w, s, step), next)
        }),
{
    if s.phase == SetupPhase::Writing {
        let fresh = s.fresh->0;
        identity::law_record_round_trip(identity::record_of(fresh));
        identity::law_identity_is_restored(fresh.secret_key, s.network, s.app);
    }
    if s.phase == SetupPhase::Keeping && w.record is Some {
        let named = identity::read_record(w.record->0)->Ok_0;
        assert(performed(w, s, step).secrets.contains_key(named.secret_id));
    }
}

/// A setup for an application without a record draws a secret, keeps it, reads it back and writes
/// the record, in this order, and the identity it comes to is the one of the secret it drew.
pub proof fn law_a_first_setup_makes_an_identity(
    network: NetworkId,
    app: AppAddr,
    secret: [u8; 32],
)
    ensures
        ({
            let a = setup_next(setup_start(network, app), Outcome::Record(None));
            let b = setup_next(a.0, Outcome::Drawn(secret));
            let c = setup_next(b.0, Outcome::Kept);
            let d = setup_next(c.0, Outcome::Secret(secret@));
            let e = setup_next(d.0, Outcome::Written);
            &&& a.1 == SetupStep::DrawSecret
            &&& b.1 == SetupStep::KeepSecret
            &&& c.1 == SetupStep::ReadBack
            &&& d.1 == SetupStep::WriteRecord
            &&& e.1 == SetupStep::Ready
            &&& e.0.found == Some(identity::identity_with(secret@, network, app))
            &&& forall|other: Seq<u8>|
                other != secret@ ==> (#[trigger] setup_next(c.0, Outcome::Secret(other))).1 is Fail
        }),
{
}

/// A setup that lost to another one takes the identity that was there first, and discards its own
/// secret exactly where the record that was there first names another.
pub proof fn law_a_lost_secret_is_discarded(s: Setup, secret: Seq<u8>, restored: Identity)
    requires
        s.phase == SetupPhase::Reopening,
        s.fresh is Some,
        identity::restore_verdict(s.record, secret, s.network, s.app) == Ok::<
            Identity,
            IdentityError,
        >(restored),
    ensures
        ({
            let (next, step) = setup_next(s, Outcome::Secret(secret));
            &&& next.found == Some(restored)
            &&& step == SetupStep::DiscardSecret <==> restored.secret_id != s.fresh->0.secret_id
            &&& step == SetupStep::Ready <==> restored.secret_id == s.fresh->0.secret_id
            &&& step == SetupStep::DiscardSecret ==> setup_next(next, Outcome::Discarded).1
                == SetupStep::Ready && setup_next(next, Outcome::Discarded).0.found == Some(restored)
        }),
{
}

} // verus!
