//! How the service answers each kind of transaction: which are refused, and
//! why, and what the accepted ones do to the ledger.

use vstd::prelude::*;
use crate::crypto::{Address, Digest};
use crate::model::time::Timestamp;
use crate::model::transactions::{
    CreateAdministration, CreateParticipant, IssueElection, SubmitLocation, Vote,
};
use crate::schema::lemmas::lemma_administration_at;
use crate::schema::view::{AdministrationEntryView, SchemaView};
use crate::schema::{administrations_view, titles_view, ElectionSchema};
use crate::service::ElectionService;

verus! {

/// Why the service refuses a transaction.
#[derive(Clone, Copy, Debug, PartialEq, Eq, Structural)]
pub enum Error {
    /// Participant already exists
    ParticipantAlreadyExists,
    /// Administration already exists
    AdministrationAlreadyExists,
    /// Unable to find participant
    ParticipantNotFound,
    /// Unable to find administration
    AdministrationNotFound,
    /// Election finished before start
    ElectionFinishedEarlierStart,
    /// Unable to find election
    ElectionNotFound,
    /// Unable to find selected option
    OptionNotFound,
    /// Vote for current participant has been counted yet
    VotedYet,
    /// Election not available for voting
    ElectionInactive,
    /// Election not started yet
    ElectionNotStartedYet,
    /// Location does not contains in any administration area
    BadLocation,
}

/// The failure of a transaction: all of its pending changes are dropped.
#[derive(Clone, Copy, Debug, PartialEq, Eq, Structural)]
pub enum ExecutionError {
    /// The call did not come from a transaction.
    UnauthorizedCaller,
    /// The service refused the transaction.
    Service(Error),
}

/// What the runtime tells the service about the transaction that it runs.
#[derive(Clone, Copy, Debug, PartialEq, Eq, Structural)]
pub struct Invocation {
    /// The address of the author, taken from the verified signature.
    pub caller: Address,
    /// The hash of the transaction; absent where the call is no transaction.
    pub transaction_hash: Option<Digest>,
    /// The root that the log of the changed entry has once this transaction
    /// is added to it.
    pub history_hash: Digest,
}

impl Error {
    /// The number by which clients know the error.
    pub open spec fn spec_code(self) -> u8 {
        match self {
            Error::ParticipantAlreadyExists => 1,
            Error::AdministrationAlreadyExists => 2,
            Error::ParticipantNotFound => 3,
            Error::AdministrationNotFound => 4,
            Error::ElectionFinishedEarlierStart => 5,
            Error::ElectionNotFound => 6,
            Error::OptionNotFound => 7,
            Error::VotedYet => 8,
            Error::ElectionInactive => 9,
            Error::ElectionNotStartedYet => 10,
            Error::BadLocation => 11,
        }
    }

    /// The number by which clients know the error.
    pub fn code(&self) -> (code: u8)
        ensures
            code == self.spec_code(),
            1 <= code <= 11,
    {
        match self {
            Error::ParticipantAlreadyExists => 1,
            Error::AdministrationAlreadyExists => 2,
            Error::ParticipantNotFound => 3,
            Error::AdministrationNotFound => 4,
            Error::ElectionFinishedEarlierStart => 5,
            Error::ElectionNotFound => 6,
            Error::OptionNotFound => 7,
            Error::VotedYet => 8,
            Error::ElectionInactive => 9,
            Error::ElectionNotStartedYet => 10,
            Error::BadLocation => 11,
        }
    }

    /// The error in words.
    pub fn description(&self) -> (text: &'static str)
        ensures
            text@ == match *self {
                Error::ParticipantAlreadyExists => "Participant already exists"@,
                Error::AdministrationAlreadyExists => "Administration already exists"@,
                Error::ParticipantNotFound => "Unable to find participant"@,
                Error::AdministrationNotFound => "Unable to find administration"@,
                Error::ElectionFinishedEarlierStart => "Election finished before start"@,
                Error::ElectionNotFound => "Unable to find election"@,
                Error::OptionNotFound => "Unable to find selected option"@,
                Error::VotedYet => "Vote for current participant has been counted yet"@,
                Error::ElectionInactive => "Election not available for voting"@,
                Error::ElectionNotStartedYet => "Election not started yet"@,
                Error::BadLocation => "Location does not contains in any administration area"@,
            },
    {
        match self {
            Error::ParticipantAlreadyExists => "Participant already exists",
            Error::AdministrationAlreadyExists => "Administration already exists",
            Error::ParticipantNotFound => "Unable to find participant",
            Error::AdministrationNotFound => "Unable to find administration",
            Error::ElectionFinishedEarlierStart => "Election finished before start",
            Error::ElectionNotFound => "Unable to find election",
            Error::OptionNotFound => "Unable to find selected option",
            Error::VotedYet => "Vote for current participant has been counted yet",
            Error::ElectionInactive => "Election not available for voting",
            Error::ElectionNotStartedYet => "Election not started yet",
            Error::BadLocation => "Location does not contains in any administration area",
        }
    }
}

/// The author and the hash of the transaction that `context` describes, or
/// `UnauthorizedCaller` where it describes none.
pub open spec fn spec_extract_info(context: Invocation) -> Result<
    (Address, Digest),
    ExecutionError,
> {
    match context.transaction_hash {
        Some(hash) => Ok((context.caller, hash)),
        None => Err(ExecutionError::UnauthorizedCaller),
    }
}

/// Reads the author and the hash of the running transaction.
pub fn extract_info(context: &Invocation) -> (info: Result<(Address, Digest), ExecutionError>)
    ensures
        info == spec_extract_info(*context),
{
    match context.transaction_hash {
        Some(hash) => Ok((context.caller, hash)),
        None => Err(ExecutionError::UnauthorizedCaller),
    }
}

/// The administration at index `i` is among those that contain the point.
pub open spec fn hit(containing: Seq<bool>, i: int) -> bool {
    0 <= i < containing.len() && containing[i]
}

/// The index of the jurisdiction of a point among the first `upto`
/// administrations: of those that contain the point, the first in table
/// order of those that stand at the greatest level.
pub open spec fn locate(
    administrations: Seq<AdministrationEntryView>,
    containing: Seq<bool>,
    upto: nat,
) -> Option<int>
    decreases upto,
{
    if upto == 0 {
        None
    } else {
        let i = upto - 1;
        let before = locate(administrations, containing, i as nat);
        if hit(containing, i) && i < administrations.len() && (match before {
            Some(best) => administrations[best].administration.administration_level
                < administrations[i].administration.administration_level,
            None => true,
        }) {
            Some(i)
        } else {
            before
        }
    }
}

/// The jurisdiction that `locate` names contains the point; no administration
/// that contains the point stands at a greater level, and none that comes
/// earlier in the table stands at the same level. It names none only where
/// no administration contains the point.
pub proof fn lemma_locate(
    administrations: Seq<AdministrationEntryView>,
    containing: Seq<bool>,
    upto: nat,
)
    requires
        upto <= administrations.len(),
    ensures
        match locate(administrations, containing, upto) {
            Some(best) => {
                &&& 0 <= best < upto
                &&& hit(containing, best)
                &&& forall|j: int|
                    0 <= j < upto && hit(containing, j) ==> (
                    #[trigger] administrations[j]).administration.administration_level
                        <= administrations[best].administration.administration_level
                &&& forall|j: int|
                    0 <= j < best && hit(containing, j) ==> (
                    #[trigger] administrations[j]).administration.administration_level
                        < administrations[best].administration.administration_level
            },
            None => forall|j: int| 0 <= j < upto ==> !hit(containing, j),
        },
    decreases upto,
{
    if upto > 0 {
        lemma_locate(administrations, containing, (upto - 1) as nat);
    }
}

impl SchemaView {
    /// The address of the jurisdiction of a point, given for each
    /// administration, in table order, whether its area contains the point.
    pub open spec fn jurisdiction(self, containing: Seq<bool>) -> Option<Address> {
        match locate(self.administrations, containing, self.administrations.len()) {
            Some(best) => Some(self.administrations[best].administration.addr),
            None => None,
        }
    }

    /// What becomes of a registration as participant: the error that refuses
    /// it, or the ledger that it leads to.
    pub open spec fn create_participant_outcome(
        self,
        context: Invocation,
        arg: CreateParticipant,
    ) -> Result<SchemaView, ExecutionError> {
        match spec_extract_info(context) {
            Err(error) => Err(error),
            Ok((addr, hash)) => if self.has_participant(addr) {
                Err(ExecutionError::Service(Error::ParticipantAlreadyExists))
            } else {
                Ok(
                    self.create_participant(
                        addr,
                        arg.name@,
                        arg.email@,
                        arg.phone_number@,
                        arg.residence.0,
                        arg.pass_code@,
                        hash,
                        context.history_hash,
                    ),
                )
            },
        }
    }

    /// What becomes of a registration as administration.
    pub open spec fn create_administration_outcome(
        self,
        context: Invocation,
        arg: CreateAdministration,
    ) -> Result<SchemaView, ExecutionError> {
        match spec_extract_info(context) {
            Err(error) => Err(error),
            Ok((addr, hash)) => if self.has_administration(addr) {
                Err(ExecutionError::Service(Error::AdministrationAlreadyExists))
            } else if arg.principal_key.0 matches Some(principal) && !self.has_administration(
                principal,
            ) {
                Err(ExecutionError::Service(Error::AdministrationNotFound))
            } else {
                Ok(
                    self.create_administration(
                        addr,
                        arg.name@,
                        arg.principal_key.0,
                        arg.area@,
                        hash,
                        context.history_hash,
                    ),
                )
            },
        }
    }

    /// What becomes of the issuing of an election.
    pub open spec fn issue_election_outcome(self, context: Invocation, arg: IssueElection) -> Result<
        SchemaView,
        ExecutionError,
    > {
        match spec_extract_info(context) {
            Err(error) => Err(error),
            Ok((issuer, hash)) => if !self.has_administration(issuer) {
                Err(ExecutionError::Service(Error::AdministrationNotFound))
            } else if !arg.start_date.precedes(arg.finish_date) {
                Err(ExecutionError::Service(Error::ElectionFinishedEarlierStart))
            } else {
                Ok(
                    self.issue_election(
                        issuer,
                        arg.name@,
                        arg.start_date,
                        arg.finish_date,
                        titles_view(arg.options@),
                        hash,
                        context.history_hash,
                    ),
                )
            },
        }
    }

    /// What becomes of a vote cast at the ledger time `now`.
    pub open spec fn vote_outcome(self, context: Invocation, now: Timestamp, arg: Vote) -> Result<
        SchemaView,
        ExecutionError,
    > {
        match spec_extract_info(context) {
            Err(error) => Err(error),
            Ok((voter, hash)) => if !self.has_participant(voter) {
                Err(ExecutionError::Service(Error::ParticipantNotFound))
            } else if !self.has_election(arg.election_id as int) {
                Err(ExecutionError::Service(Error::ElectionNotFound))
            } else if self.election(arg.election_id as int).election.not_started_yet(now) {
                Err(ExecutionError::Service(Error::ElectionNotStartedYet))
            } else if !self.election(arg.election_id as int).election.is_active(now) {
                Err(ExecutionError::Service(Error::ElectionInactive))
            } else if !self.election(arg.election_id as int).election.has_option(
                arg.option_id as int,
            ) {
                Err(ExecutionError::Service(Error::OptionNotFound))
            } else if self.voted_yet(arg.election_id as int, voter) {
                Err(ExecutionError::Service(Error::VotedYet))
            } else {
                Ok(
                    self.vote(
                        arg.election_id as int,
                        voter,
                        arg.option_id,
                        hash,
                        context.history_hash,
                    ),
                )
            },
        }
    }

    /// What becomes of a location submitted at the ledger time `now`, given
    /// for each administration, in table order, whether its area contains
    /// the submitted point.
    pub open spec fn submit_location_outcome(
        self,
        context: Invocation,
        now: Timestamp,
        containing: Seq<bool>,
    ) -> Result<SchemaView, ExecutionError> {
        match spec_extract_info(context) {
            Err(error) => Err(error),
            Ok((author, hash)) => if !self.has_participant(author) {
                Err(ExecutionError::Service(Error::ParticipantNotFound))
            } else {
                match self.jurisdiction(containing) {
                    None => Err(ExecutionError::Service(Error::BadLocation)),
                    Some(location) => Ok(
                        self.submit_participant_location(
                            author,
                            now,
                            location,
                            hash,
                            context.history_hash,
                        ),
                    ),
                }
            },
        }
    }
}

/// How the result of a handler and the ledger that it leaves relate to the
/// outcome that the rules give: on success the ledger is the one of the
/// outcome, on failure the error is the one of the outcome and the ledger is
/// as it was.
pub open spec fn settles(
    result: Result<(), ExecutionError>,
    before: SchemaView,
    after: SchemaView,
    outcome: Result<SchemaView, ExecutionError>,
) -> bool {
    match result {
        Ok(()) => outcome == Ok::<SchemaView, ExecutionError>(after),
        Err(error) => outcome == Err::<SchemaView, ExecutionError>(error) && after == before,
    }
}

impl ElectionSchema {
    /// Finds the jurisdiction of a point, given for each administration, in
    /// table order, whether its area contains the point: of the
    /// administrations that contain it, the first of those at the greatest
    /// level.
    pub fn locate(&self, containing: &Vec<bool>) -> (found: Option<Address>)
        requires
            self.wf(),
        ensures
            found == self@.jurisdiction(containing@),
            found matches Some(location) ==> self@.has_administration(location),
    {
        let entries = self.administrations();
        let ghost table = self@.administrations;
        let mut best: Option<usize> = None;
        let mut i: usize = 0;
        while i < entries.len()
            invariant
                i <= entries.len(),
                administrations_view(entries@) == table,
                match best {
                    Some(b) => locate(table, containing@, i as nat) == Some(b as int) && b < i,
                    None => locate(table, containing@, i as nat) is None,
                },
            decreases entries.len() - i,
        {
            assert(entries@[i as int]@ == table[i as int]);
            if i < containing.len() && containing[i] {
                let better = match best {
                    Some(b) => {
                        assert(entries@[b as int]@ == table[b as int]);
                        entries[b].administration.administration_level
                            < entries[i].administration.administration_level
                    },
                    None => true,
                };
                if better {
                    best = Some(i);
                }
            }
            i = i + 1;
        }
        match best {
            Some(b) => {
                assert(entries@[b as int]@ == table[b as int]);
                proof {
                    lemma_administration_at(self@, b as int);
                }
                Some(entries[b].administration.addr)
            },
            None => None,
        }
    }
}

impl ElectionService {
    /// Registers the author of the transaction as a participant. Refused with
    /// `ParticipantAlreadyExists` where the address is taken.
    pub fn create_participant(
        &self,
        schema: &mut ElectionSchema,
        context: &Invocation,
        arg: CreateParticipant,
    ) -> (result: Result<(), ExecutionError>)
        requires
            old(schema).wf(),
        ensures
            final(schema).wf(),
            settles(
                result,
                old(schema)@,
                final(schema)@,
                old(schema)@.create_participant_outcome(*context, arg),
            ),
    {
        let (addr, tx_hash) = match extract_info(context) {
            Ok(info) => info,
            Err(error) => {
                return Err(error);
            },
        };
        if schema.participant(&addr).is_none() {
            schema.create_participant(&addr, arg, &tx_hash, &context.history_hash);
            Ok(())
        } else {
            Err(ExecutionError::Service(Error::ParticipantAlreadyExists))
        }
    }

    /// Registers the author of the transaction as an administration. Refused
    /// with `AdministrationAlreadyExists` where the address is taken, and
    /// with `AdministrationNotFound` where the principal that it names is not
    /// on the ledger.
    pub fn create_administration(
        &self,
        schema: &mut ElectionSchema,
        context: &Invocation,
        arg: CreateAdministration,
    ) -> (result: Result<(), ExecutionError>)
        requires
            old(schema).wf(),
            arg.principal_key.0 matches Some(principal) ==> old(schema)@.has_administration(
                principal,
            ) ==> old(schema)@.level(principal) < u32::MAX,
        ensures
            final(schema).wf(),
            settles(
                result,
                old(schema)@,
                final(schema)@,
                old(schema)@.create_administration_outcome(*context, arg),
            ),
    {
        let (from, tx_hash) = match extract_info(context) {
            Ok(info) => info,
            Err(error) => {
                return Err(error);
            },
        };
        if schema.administration(&from).is_some() {
            return Err(ExecutionError::Service(Error::AdministrationAlreadyExists));
        }
        match arg.principal_key.0 {
            Some(principal) => {
                if schema.administration(&principal).is_none() {
                    return Err(ExecutionError::Service(Error::AdministrationNotFound));
                }
            },
            None => {},
        }
        schema.create_administration(
            &from,
            arg.name.as_str(),
            &arg.principal_key,
            &arg.area,
            &tx_hash,
            &context.history_hash,
        );
        Ok(())
    }

    /// Issues an election in the name of the author of the transaction.
    /// Refused with `AdministrationNotFound` where the author is no
    /// administration, and with `ElectionFinishedEarlierStart` where the
    /// election would not start before it finishes.
    pub fn issue_election(
        &self,
        schema: &mut ElectionSchema,
        context: &Invocation,
        arg: IssueElection,
    ) -> (result: Result<(), ExecutionError>)
        requires
            old(schema).wf(),
            arg.options.len() <= i32::MAX,
            old(schema)@.next_election_address() < i64::MAX,
        ensures
            final(schema).wf(),
            settles(
                result,
                old(schema)@,
                final(schema)@,
                old(schema)@.issue_election_outcome(*context, arg),
            ),
    {
        let (issuer, tx_hash) = match extract_info(context) {
            Ok(info) => info,
            Err(error) => {
                return Err(error);
            },
        };
        if schema.administration(&issuer).is_none() {
            return Err(ExecutionError::Service(Error::AdministrationNotFound));
        }
        if !arg.start_date.is_before(&arg.finish_date) {
            return Err(ExecutionError::Service(Error::ElectionFinishedEarlierStart));
        }
        schema.issue_election(
            arg.name.as_str(),
            &issuer,
            &arg.start_date,
            &arg.finish_date,
            &arg.options,
            &tx_hash,
            &context.history_hash,
        );
        Ok(())
    }

    /// Casts the vote of the author of the transaction at the ledger time
    /// `now`. Refused, in this order, with `ParticipantNotFound`,
    /// `ElectionNotFound`, `ElectionNotStartedYet` before the start,
    /// `ElectionInactive` from the finish on, `OptionNotFound`, and
    /// `VotedYet` where the author has a vote on record in the election.
    pub fn vote(
        &self,
        schema: &mut ElectionSchema,
        context: &Invocation,
        now: Timestamp,
        arg: Vote,
    ) -> (result: Result<(), ExecutionError>)
        requires
            old(schema).wf(),
        ensures
            final(schema).wf(),
            settles(
                result,
                old(schema)@,
                final(schema)@,
                old(schema)@.vote_outcome(*context, now, arg),
            ),
    {
        let (voter, tx_hash) = match extract_info(context) {
            Ok(info) => info,
            Err(error) => {
                return Err(error);
            },
        };
        if schema.participant(&voter).is_none() {
            return Err(ExecutionError::Service(Error::ParticipantNotFound));
        }
        match schema.election(arg.election_id) {
            None => {
                return Err(ExecutionError::Service(Error::ElectionNotFound));
            },
            Some(election) => {
                if election.not_started_yet(now) {
                    return Err(ExecutionError::Service(Error::ElectionNotStartedYet));
                }
                if !election.is_active(now) {
                    return Err(ExecutionError::Service(Error::ElectionInactive));
                }
                if !election.has_option(arg.option_id) {
                    return Err(ExecutionError::Service(Error::OptionNotFound));
                }
            },
        }
        if schema.voted_yet(arg.election_id, &voter) {
            return Err(ExecutionError::Service(Error::VotedYet));
        }
        proof {
            let id = arg.election_id as int;
            assert(schema@.election_wf(id));
            let options = schema@.election(id).election.options;
            let at = choose|i: int|
                0 <= i < options.len() && (#[trigger] options[i]).id == arg.option_id as int;
            assert(options[at].id == at);
        }
        schema.vote(arg.election_id, &voter, arg.option_id, &tx_hash, &context.history_hash);
        Ok(())
    }

    /// Records where the author of the transaction is at the ledger time
    /// `now`. `containing` tells for each administration, in table order,
    /// whether its area contains the position that `arg` gives; an
    /// administration without an entry counts as not containing it. Refused
    /// with `ParticipantNotFound` where the author is no participant, and
    /// with `BadLocation` where no area contains the position.
    pub fn submit_location(
        &self,
        schema: &mut ElectionSchema,
        context: &Invocation,
        now: Timestamp,
        arg: SubmitLocation,
        containing: &Vec<bool>,
    ) -> (result: Result<(), ExecutionError>)
        requires
            old(schema).wf(),
        ensures
            final(schema).wf(),
            settles(
                result,
                old(schema)@,
                final(schema)@,
                old(schema)@.submit_location_outcome(*context, now, containing@),
            ),
    {
        let (tx_author, tx_hash) = match extract_info(context) {
            Ok(info) => info,
            Err(error) => {
                return Err(error);
            },
        };
        if schema.participant(&tx_author).is_none() {
            return Err(ExecutionError::Service(Error::ParticipantNotFound));
        }
        let location = match schema.locate(containing) {
            Some(location) => location,
            None => {
                return Err(ExecutionError::Service(Error::BadLocation));
            },
        };
        schema.submit_participant_location(
            &tx_author,
            now,
            &location,
            &tx_hash,
            &context.history_hash,
        );
        Ok(())
    }
}

} // verus!
