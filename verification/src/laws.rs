//! What holds of the ledger whatever the transactions are.

use vstd::prelude::*;
use crate::crypto::Address;
use crate::model::time::Timestamp;
use crate::model::transactions::{
    CreateAdministration, CreateParticipant, IssueElection, Vote,
};
use crate::model::{
    AdministrationAddress, ElectionOptionAddress, ElectionView, ParticipantAddress,
    ParticipantView,
};
use crate::schema::elections::{count_votes, lemma_filter_empty, lemma_filter_push};
use crate::schema::hierarchy::{lemma_walk, MAX_RECURSION_DEPTH};
use crate::schema::lemmas::{
    lemma_administration_at, lemma_create_administration, lemma_create_participant,
    lemma_find_administration, lemma_find_participant, lemma_issue_election,
    lemma_submit_participant_location, lemma_vote,
};

use crate::schema::titles_view;
use crate::schema::tree::{lemma_deep_witness_is_too_deep, lemma_too_deep_has_witness};
use crate::schema::recommend::{
    distinct, lemma_distinct_members, lemma_ranking_ascending, occurrences,
};
use crate::schema::table::{lemma_lower_bound_splits, lower_bound, moved};
use crate::schema::view::{participant_keys, voters, Ballot, SchemaView};
use crate::tx_behavior::{hit, lemma_locate, locate, Error, ExecutionError, Invocation};

verus! {

/// A participant is registered once: after a registration was accepted,
/// every later registration by the same author is refused with
/// `ParticipantAlreadyExists`, and the record holds what the first one gave.
pub proof fn law_participant_registers_once(
    s: SchemaView,
    first: Invocation,
    accepted: CreateParticipant,
    second: Invocation,
    repeated: CreateParticipant,
)
    requires
        s.wf(),
        s.create_participant_outcome(first, accepted) is Ok,
        second.caller == first.caller,
        second.transaction_hash is Some,
    ensures
        ({
            let t = s.create_participant_outcome(first, accepted)->Ok_0;
            let record = t.participant(first.caller).participant;
            &&& t.wf()
            &&& t.create_participant_outcome(second, repeated) == Err::<
                SchemaView,
                ExecutionError,
            >(ExecutionError::Service(Error::ParticipantAlreadyExists))
            &&& record.addr == first.caller
            &&& record.name == accepted.name@
            &&& record.email == accepted.email@
            &&& record.phone_number == accepted.phone_number@
            &&& record.pass_code == accepted.pass_code@
            &&& record.residence == accepted.residence.0
        }),
{
    lemma_create_participant(
        s,
        first.caller,
        accepted.name@,
        accepted.email@,
        accepted.phone_number@,
        accepted.residence.0,
        accepted.pass_code@,
        first.transaction_hash->Some_0,
        first.history_hash,
    );
}

/// An administration is registered once: after a registration was accepted,
/// every later registration by the same author is refused with
/// `AdministrationAlreadyExists`, and the record holds what the first one gave.
pub proof fn law_administration_registers_once(
    s: SchemaView,
    first: Invocation,
    accepted: CreateAdministration,
    second: Invocation,
    repeated: CreateAdministration,
)
    requires
        s.wf(),
        s.create_administration_outcome(first, accepted) is Ok,
        second.caller == first.caller,
        second.transaction_hash is Some,
    ensures
        ({
            let t = s.create_administration_outcome(first, accepted)->Ok_0;
            let record = t.administration(first.caller).administration;
            &&& t.wf()
            &&& t.create_administration_outcome(second, repeated) == Err::<
                SchemaView,
                ExecutionError,
            >(ExecutionError::Service(Error::AdministrationAlreadyExists))
            &&& record.addr == first.caller
            &&& record.name == accepted.name@
            &&& record.principal_key == accepted.principal_key.0
            &&& record.area == accepted.area@
        }),
{
    lemma_create_administration(
        s,
        first.caller,
        accepted.name@,
        accepted.principal_key.0,
        accepted.area@,
        first.transaction_hash->Some_0,
        first.history_hash,
    );
}

/// Every record counts the transactions of its own log.
pub proof fn law_history_len_counts_log(s: SchemaView)
    requires
        s.wf(),
    ensures
        forall|key: ParticipantAddress|
            s.has_participant(key) ==> (#[trigger] s.participant(key)).participant.history_len
                == s.participant(key).history.len(),
        forall|key: AdministrationAddress|
            s.has_administration(key) ==> (#[trigger] s.administration(
                key,
            )).administration.history_len == s.administration(key).history.len(),
        forall|id: int|
            s.has_election(id) ==> (#[trigger] s.election(id)).election.history_len == s.election(
                id,
            ).history.len(),
{
    assert forall|key: ParticipantAddress| s.has_participant(key) implies (#[trigger] s.participant(
        key,
    )).participant.history_len == s.participant(key).history.len() by {
        lemma_find_participant(s, key);
    }
    assert forall|key: AdministrationAddress| s.has_administration(key) implies (
    #[trigger] s.administration(key)).administration.history_len == s.administration(
        key,
    ).history.len() by {
        lemma_find_administration(s, key);
    }
    assert forall|id: int| s.has_election(id) implies (#[trigger] s.election(
        id,
    )).election.history_len == s.election(id).history.len() by {
        assert(s.election_wf(id));
    }
}

/// A record starts its log with the transaction that made it: after an
/// accepted registration or issue the log of the new record holds that
/// transaction alone, the record counts one and commits to the root that
/// came with the transaction; an issued election gets the next address.
pub proof fn law_new_records_start_their_log(
    s: SchemaView,
    context: Invocation,
    participant: CreateParticipant,
    administration: CreateAdministration,
    election: IssueElection,
)
    requires
        s.wf(),
    ensures
        s.create_participant_outcome(context, participant) matches Ok(t) ==> {
            let entry = t.participant(context.caller);
            &&& !s.has_participant(context.caller)
            &&& t.has_participant(context.caller)
            &&& entry.history == seq![context.transaction_hash->Some_0]
            &&& entry.participant.history_len == 1
            &&& entry.participant.history_hash == context.history_hash
            &&& entry.locations.len() == 0
        },
        s.create_administration_outcome(context, administration) matches Ok(t) ==> {
            let entry = t.administration(context.caller);
            &&& !s.has_administration(context.caller)
            &&& t.has_administration(context.caller)
            &&& entry.history == seq![context.transaction_hash->Some_0]
            &&& entry.administration.history_len == 1
            &&& entry.administration.history_hash == context.history_hash
            &&& entry.administration.administration_level == s.level_under(
                administration.principal_key.0,
            )
            &&& entry.elections.len() == 0
        },
        s.issue_election_outcome(context, election) matches Ok(t) ==> {
            let id = s.next_election_address();
            let entry = t.election(id);
            &&& !s.has_election(id)
            &&& t.has_election(id)
            &&& t.next_election_address() == id + 1
            &&& entry.history == seq![context.transaction_hash->Some_0]
            &&& entry.election.addr == id
            &&& entry.election.issuer == context.caller
            &&& entry.election.history_len == 1
            &&& entry.election.history_hash == context.history_hash
            &&& entry.votes.len() == 0
            &&& t.administration(context.caller).elections == s.administration(
                context.caller,
            ).elections.push(id)
        },
{
    if s.create_participant_outcome(context, participant) is Ok {
        lemma_create_participant(
            s,
            context.caller,
            participant.name@,
            participant.email@,
            participant.phone_number@,
            participant.residence.0,
            participant.pass_code@,
            context.transaction_hash->Some_0,
            context.history_hash,
        );
    }
    if s.create_administration_outcome(context, administration) is Ok {
        lemma_create_administration(
            s,
            context.caller,
            administration.name@,
            administration.principal_key.0,
            administration.area@,
            context.transaction_hash->Some_0,
            context.history_hash,
        );
    }
    if s.issue_election_outcome(context, election) is Ok {
        lemma_find_administration(s, context.caller);
        lemma_issue_election(
            s,
            context.caller,
            election.name@,
            election.start_date,
            election.finish_date,
            titles_view(election.options@),
            context.transaction_hash->Some_0,
            context.history_hash,
        );
        let t = s.issue_election_outcome(context, election)->Ok_0;
        lemma_find_administration(t, context.caller);
    }
}

/// An accepted vote adds its transaction to the end of the log of its
/// election, and the record of the election commits to the root that came
/// with the transaction; the log of no other election changes.
pub proof fn law_vote_extends_log(s: SchemaView, context: Invocation, now: Timestamp, arg: Vote)
    requires
        s.wf(),
        s.vote_outcome(context, now, arg) is Ok,
    ensures
        ({
            let t = s.vote_outcome(context, now, arg)->Ok_0;
            let id = arg.election_id as int;
            &&& t.wf()
            &&& t.election(id).history == s.election(id).history.push(
                context.transaction_hash->Some_0,
            )
            &&& t.election(id).election.history_len == s.election(id).election.history_len + 1
            &&& t.election(id).election.history_hash == context.history_hash
            &&& t.elections.len() == s.elections.len()
            &&& forall|other: int|
                s.has_election(other) && other != id ==> #[trigger] t.election(other) == s.election(
                    other,
                )
            &&& t.participants == s.participants
            &&& t.administrations == s.administrations
        }),
{
    let id = arg.election_id as int;
    assert(s.election_wf(id));
    let options = s.election(id).election.options;
    let at = choose|i: int|
        0 <= i < options.len() && (#[trigger] options[i]).id == arg.option_id as int;
    assert(options[at].id == at);
    lemma_vote(
        s,
        id,
        context.caller,
        arg.option_id,
        context.transaction_hash->Some_0,
        context.history_hash,
    );
}

/// An accepted location adds its transaction to the end of the log of the
/// participant and its place to the end of the location history; no other
/// participant changes.
pub proof fn law_location_extends_log(
    s: SchemaView,
    context: Invocation,
    now: Timestamp,
    containing: Seq<bool>,
)
    requires
        s.wf(),
        s.submit_location_outcome(context, now, containing) is Ok,
    ensures
        ({
            let t = s.submit_location_outcome(context, now, containing)->Ok_0;
            let key = context.caller;
            &&& t.wf()
            &&& t.has_participant(key)
            &&& t.participant(key).history == s.participant(key).history.push(
                context.transaction_hash->Some_0,
            )
            &&& t.participant(key).participant.history_len == s.participant(
                key,
            ).participant.history_len + 1
            &&& t.participant(key).participant.history_hash == context.history_hash
            &&& t.participant(key).locations.len() == s.participant(key).locations.len() + 1
            &&& t.participant(key).locations.last().time == now
            &&& Some(t.participant(key).locations.last().location) == s.jurisdiction(containing)
            &&& forall|other: ParticipantAddress|
                other != key ==> t.has_participant(other) == s.has_participant(other) && (
                s.has_participant(other) ==> #[trigger] t.participant(other) == s.participant(
                    other,
                ))
        }),
{
    let key = context.caller;
    let location = s.jurisdiction(containing)->Some_0;
    lemma_locate(s.administrations, containing, s.administrations.len());
    let best = locate(s.administrations, containing, s.administrations.len())->Some_0;
    lemma_administration_at(s, best);
    lemma_find_participant(s, key);
    lemma_submit_participant_location(
        s,
        key,
        now,
        location,
        context.transaction_hash->Some_0,
        context.history_hash,
    );
    let t = s.submit_location_outcome(context, now, containing)->Ok_0;
    assert forall|other: ParticipantAddress| other != key implies t.has_participant(other)
        == s.has_participant(other) && (s.has_participant(other) ==> #[trigger] t.participant(
        other,
    ) == s.participant(other)) by {
        lemma_find_participant(s, other);
    }
}

/// A vote on record stays on record: no accepted transaction of any kind
/// removes it.
pub proof fn law_votes_are_kept(s: SchemaView, t: SchemaView, id: int, voter: ParticipantAddress)
    requires
        s.wf(),
        s.voted_yet(id, voter),
        follows(s, t),
    ensures
        t.voted_yet(id, voter),
{
    if exists|context: Invocation, now: Timestamp, arg: Vote|
        s.vote_outcome(context, now, arg) == Ok::<SchemaView, ExecutionError>(t) {
        let (context, now, arg) = choose|context: Invocation, now: Timestamp, arg: Vote|
            s.vote_outcome(context, now, arg) == Ok::<SchemaView, ExecutionError>(t);
        let cast = arg.election_id as int;
        assert(s.election_wf(cast));
        let options = s.election(cast).election.options;
        let at = choose|i: int|
            0 <= i < options.len() && (#[trigger] options[i]).id == arg.option_id as int;
        assert(options[at].id == at);
        lemma_vote(
            s,
            cast,
            context.caller,
            arg.option_id,
            context.transaction_hash->Some_0,
            context.history_hash,
        );
        if cast == id {
            assert(voter != context.caller);
            assert(t.voted_yet(id, voter) == s.voted_yet(id, voter));
        }
    }
}

/// The ledger `t` is what one accepted transaction made of the ledger `s`.
pub open spec fn follows(s: SchemaView, t: SchemaView) -> bool {
    ||| exists|context: Invocation, arg: CreateParticipant|
        s.create_participant_outcome(context, arg) == Ok::<SchemaView, ExecutionError>(t)
    ||| exists|context: Invocation, arg: CreateAdministration|
        s.create_administration_outcome(context, arg) == Ok::<SchemaView, ExecutionError>(t)
    ||| exists|context: Invocation, arg: IssueElection|
        s.issue_election_outcome(context, arg) == Ok::<SchemaView, ExecutionError>(t)
    ||| exists|context: Invocation, now: Timestamp, arg: Vote|
        s.vote_outcome(context, now, arg) == Ok::<SchemaView, ExecutionError>(t)
    ||| exists|context: Invocation, now: Timestamp, containing: Seq<bool>|
        s.submit_location_outcome(context, now, containing) == Ok::<SchemaView, ExecutionError>(t)
}

/// Every accepted transaction leaves the ledger well formed.
pub proof fn law_transactions_keep_wf(s: SchemaView, t: SchemaView)
    requires
        s.wf(),
        follows(s, t),
    ensures
        t.wf(),
{
    if exists|context: Invocation, arg: CreateParticipant|
        s.create_participant_outcome(context, arg) == Ok::<SchemaView, ExecutionError>(t) {
        let (context, arg) = choose|context: Invocation, arg: CreateParticipant|
            s.create_participant_outcome(context, arg) == Ok::<SchemaView, ExecutionError>(t);
        lemma_create_participant(
            s,
            context.caller,
            arg.name@,
            arg.email@,
            arg.phone_number@,
            arg.residence.0,
            arg.pass_code@,
            context.transaction_hash->Some_0,
            context.history_hash,
        );
    } else if exists|context: Invocation, arg: CreateAdministration|
        s.create_administration_outcome(context, arg) == Ok::<SchemaView, ExecutionError>(t) {
        let (context, arg) = choose|context: Invocation, arg: CreateAdministration|
            s.create_administration_outcome(context, arg) == Ok::<SchemaView, ExecutionError>(t);
        lemma_create_administration(
            s,
            context.caller,
            arg.name@,
            arg.principal_key.0,
            arg.area@,
            context.transaction_hash->Some_0,
            context.history_hash,
        );
    } else if exists|context: Invocation, arg: IssueElection|
        s.issue_election_outcome(context, arg) == Ok::<SchemaView, ExecutionError>(t) {
        let (context, arg) = choose|context: Invocation, arg: IssueElection|
            s.issue_election_outcome(context, arg) == Ok::<SchemaView, ExecutionError>(t);
        lemma_issue_election(
            s,
            context.caller,
            arg.name@,
            arg.start_date,
            arg.finish_date,
            titles_view(arg.options@),
            context.transaction_hash->Some_0,
            context.history_hash,
        );
    } else if exists|context: Invocation, now: Timestamp, arg: Vote|
        s.vote_outcome(context, now, arg) == Ok::<SchemaView, ExecutionError>(t) {
        let (context, now, arg) = choose|context: Invocation, now: Timestamp, arg: Vote|
            s.vote_outcome(context, now, arg) == Ok::<SchemaView, ExecutionError>(t);
        law_vote_extends_log(s, context, now, arg);
    } else {
        let (context, now, containing) = choose|
            context: Invocation,
            now: Timestamp,
            containing: Seq<bool>,
        |
            s.submit_location_outcome(context, now, containing) == Ok::<
                SchemaView,
                ExecutionError,
            >(t);
        law_location_extends_log(s, context, now, containing);
    }
}

/// A participant votes once in an election: with a vote on record, every
/// further vote of the participant in that election is refused, and with
/// `VotedYet` whenever nothing else is wrong with it.
pub proof fn law_one_vote_each(s: SchemaView, context: Invocation, now: Timestamp, arg: Vote)
    requires
        s.wf(),
        s.voted_yet(arg.election_id as int, context.caller),
    ensures
        s.vote_outcome(context, now, arg) is Err,
        context.transaction_hash is Some && s.has_participant(context.caller) && s.election(
            arg.election_id as int,
        ).election.is_active(now) && s.election(arg.election_id as int).election.has_option(
            arg.option_id as int,
        ) ==> s.vote_outcome(context, now, arg) == Err::<SchemaView, ExecutionError>(
            ExecutionError::Service(Error::VotedYet),
        ),
{
}

/// An accepted vote puts the voter on record, so that the law above applies
/// from then on; and it is accepted only from one who was not on record.
pub proof fn law_vote_is_recorded(s: SchemaView, context: Invocation, now: Timestamp, arg: Vote)
    requires
        s.wf(),
        s.vote_outcome(context, now, arg) is Ok,
    ensures
        !s.voted_yet(arg.election_id as int, context.caller),
        (s.vote_outcome(context, now, arg)->Ok_0).voted_yet(
            arg.election_id as int,
            context.caller,
        ),
        (s.vote_outcome(context, now, arg)->Ok_0).election(arg.election_id as int).votes.len()
            == s.election(arg.election_id as int).votes.len() + 1,
{
    let id = arg.election_id as int;
    assert(s.election_wf(id));
    let options = s.election(id).election.options;
    let at = choose|i: int|
        0 <= i < options.len() && (#[trigger] options[i]).id == arg.option_id as int;
    assert(options[at].id == at);
    lemma_vote(
        s,
        id,
        context.caller,
        arg.option_id,
        context.transaction_hash->Some_0,
        context.history_hash,
    );
    lemma_lower_bound_splits(voters(s.election(id).votes), context.caller);
}

/// Votes are taken from the start of an election on and up to its finish,
/// the finish excluded: a vote with which nothing else is wrong is accepted
/// exactly within that window, refused with `ElectionNotStartedYet` before
/// it and with `ElectionInactive` from the finish on.
pub proof fn law_voting_window(s: SchemaView, context: Invocation, now: Timestamp, arg: Vote)
    requires
        s.wf(),
        context.transaction_hash is Some,
        s.has_participant(context.caller),
        s.has_election(arg.election_id as int),
        s.election(arg.election_id as int).election.has_option(arg.option_id as int),
        !s.voted_yet(arg.election_id as int, context.caller),
    ensures
        ({
            let election = s.election(arg.election_id as int).election;
            let outcome = s.vote_outcome(context, now, arg);
            &&& now.precedes(election.start_date) ==> outcome == Err::<SchemaView, ExecutionError>(
                ExecutionError::Service(Error::ElectionNotStartedYet),
            )
            &&& election.start_date.not_after(now) && now.precedes(election.finish_date)
                ==> outcome is Ok
            &&& election.finish_date.not_after(now) ==> outcome == Err::<
                SchemaView,
                ExecutionError,
            >(ExecutionError::Service(Error::ElectionInactive))
            &&& now == election.start_date ==> outcome is Ok
            &&& now == election.finish_date ==> outcome == Err::<SchemaView, ExecutionError>(
                ExecutionError::Service(Error::ElectionInactive),
            )
        }),
{
    assert(s.election_wf(arg.election_id as int));
}

/// The sum of the counts of the options numbered below `options`.
pub open spec fn tally_total(votes: Seq<Ballot>, options: nat) -> nat
    decreases options,
{
    if options == 0 {
        0
    } else {
        tally_total(votes, (options - 1) as nat) + count_votes(votes, options - 1)
    }
}

/// One more vote is one more in the total, if it names one of the options.
proof fn lemma_tally_total_push(votes: Seq<Ballot>, last: Ballot, options: nat)
    ensures
        tally_total(votes.push(last), options) == tally_total(votes, options) + if 0
            <= last.option_id < options {
            1nat
        } else {
            0nat
        },
        tally_total(Seq::empty(), options) == 0,
    decreases options,
{
    if options > 0 {
        lemma_tally_total_push(votes, last, (options - 1) as nat);
        let option = options - 1;
        lemma_filter_push(votes, last, |b: Ballot| b.option_id == option);
        lemma_filter_empty(|b: Ballot| b.option_id == option);
    }
}

/// Where every vote names one of the options, the counts add up to the
/// number of votes.
proof fn lemma_tally_total(votes: Seq<Ballot>, options: nat)
    requires
        forall|k: int| 0 <= k < votes.len() ==> 0 <= (#[trigger] votes[k]).option_id < options,
    ensures
        tally_total(votes, options) == votes.len(),
    decreases votes.len(),
{
    if votes.len() == 0 {
        assert(votes =~= Seq::empty());
        lemma_tally_total_push(votes, Ballot { voter: Address::spec_zero(), option_id: 0 }, options);
    } else {
        let front = votes.drop_last();
        assert forall|k: int| 0 <= k < front.len() implies 0 <= (#[trigger] front[k]).option_id
            < options by {
            assert(front[k] == votes[k]);
        }
        lemma_tally_total(front, options);
        lemma_tally_total_push(front, votes.last(), options);
        assert(front.push(votes.last()) =~= votes);
        assert(0 <= votes[votes.len() - 1].option_id < options);
    }
}

/// The results of an election name every declared option, also those without
/// a vote, each with the number of votes for it; and the counts add up to
/// the number of votes on record.
pub proof fn law_results_account_for_every_vote(s: SchemaView, id: int)
    requires
        s.wf(),
        s.has_election(id),
        s.election(id).votes.len() <= u32::MAX,
    ensures
        forall|option: ElectionOptionAddress|
            s.election(id).election.has_option(option as int) <==> #[trigger] s.election_results(
                id,
            ).contains_key(option),
        forall|option: ElectionOptionAddress|
            s.election(id).election.has_option(option as int) ==> #[trigger] s.election_results(
                id,
            )[option] == count_votes(s.election(id).votes, option as int),
        forall|option: ElectionOptionAddress|
            0 <= option < s.election(id).election.options.len() <==> s.election(
                id,
            ).election.has_option(option as int),
        tally_total(s.election(id).votes, s.election(id).election.options.len())
            == s.election(id).votes.len(),
{
    assert(s.election_wf(id));
    let election = s.election(id).election;
    let votes = s.election(id).votes;
    lemma_tally_total(votes, election.options.len());
    assert forall|option: ElectionOptionAddress|
        election.has_option(option as int) implies #[trigger] s.election_results(id)[option]
        == count_votes(votes, option as int) by {
        votes.lemma_filter_len(|b: Ballot| b.option_id == option as int);
    }
    assert forall|option: ElectionOptionAddress| 0 <= option < election.options.len()
        <==> election.has_option(option as int) by {
        if 0 <= option < election.options.len() {
            assert(election.options[option as int].id == option);
        }
    }
}

/// A root stands at level zero and every other administration one level
/// below its principal, which is on the ledger; so the walk from an
/// administration to its root meets one administration on each level from
/// its own down to zero, each the principal of the one before it.
pub proof fn law_levels_follow_principals(s: SchemaView, key: AdministrationAddress)
    requires
        s.wf(),
        s.has_administration(key),
    ensures
        match s.administration(key).administration.principal_key {
            None => s.level(key) == 0,
            Some(principal) => s.has_administration(principal) && s.level(key) == s.level(
                principal,
            ) + 1,
        },
        s.level(key) <= MAX_RECURSION_DEPTH ==> {
            &&& s.lineage(key).len() == s.level(key) + 1
            &&& s.lineage(key).last().administration_level == 0
            &&& s.lineage(key).last().principal_key is None
            &&& forall|k: int|
                0 <= k < s.lineage(key).len() - 1 ==> (#[trigger] s.lineage(key)[k]).principal_key
                    == Some(s.lineage(key)[k + 1].addr) && s.lineage(key)[k].administration_level
                    == s.lineage(key)[k + 1].administration_level + 1
        },
{
    lemma_find_administration(s, key);
    if s.level(key) <= MAX_RECURSION_DEPTH {
        lemma_walk(s, key, (MAX_RECURSION_DEPTH + 1) as nat);
        let chain = s.lineage(key);
        assert(chain[chain.len() - 1].administration_level == s.level(key) - (chain.len() - 1));
        assert forall|k: int| 0 <= k < chain.len() - 1 implies (#[trigger] chain[k]).principal_key
            == Some(chain[k + 1].addr) && chain[k].administration_level == chain[k
            + 1].administration_level + 1 by {
            assert(chain[k].administration_level == s.level(key) - k);
            assert(chain[k + 1].administration_level == s.level(key) - (k + 1));
        }
    }
}

/// The jurisdiction of a point is an administration whose area contains the
/// point, and none whose area contains it stands at a greater level; there
/// is one whenever some area contains the point.
pub proof fn law_jurisdiction_is_deepest(s: SchemaView, containing: Seq<bool>)
    requires
        s.wf(),
    ensures
        match s.jurisdiction(containing) {
            Some(location) => {
                &&& s.has_administration(location)
                &&& hit(containing, s.find_administration(location)->Some_0)
                &&& forall|i: int|
                    0 <= i < s.administrations.len() && hit(containing, i) ==> (
                    #[trigger] s.administrations[i]).administration.administration_level
                        <= s.level(location)
            },
            None => forall|i: int| 0 <= i < s.administrations.len() ==> !hit(containing, i),
        },
{
    lemma_locate(s.administrations, containing, s.administrations.len());
    match locate(s.administrations, containing, s.administrations.len()) {
        Some(best) => {
            lemma_administration_at(s, best);
        },
        None => {},
    }
}

/// The tree of administrations cannot be built exactly when some
/// administration stands below level `MAX_RECURSION_DEPTH`.
pub proof fn law_tree_fails_when_too_deep(s: SchemaView)
    requires
        s.wf(),
    ensures
        s.tree_too_deep() <==> exists|key: AdministrationAddress|
            s.has_administration(key) && #[trigger] s.level(key) > MAX_RECURSION_DEPTH,
{
    if s.tree_too_deep() {
        lemma_too_deep_has_witness(s, None, 0);
    }
    if exists|key: AdministrationAddress|
        s.has_administration(key) && #[trigger] s.level(key) > MAX_RECURSION_DEPTH {
        let key = choose|key: AdministrationAddress|
            s.has_administration(key) && #[trigger] s.level(key) > MAX_RECURSION_DEPTH;
        lemma_deep_witness_is_too_deep(s, key, 0);
        lemma_walk(s, key, s.level(key) + 1);
    }
}

/// Suggestions come in ascending order of how often they occur in the pool,
/// and every address of the pool is suggested once.
pub proof fn law_suggestions_ascend(s: SchemaView, key: ParticipantAddress, now: Timestamp)
    ensures
        s.suggested(key, now).len() == distinct(s.suggestion_pool(key, now)).len(),
        forall|i: int, j: int|
            0 <= i < j < s.suggested(key, now).len() ==> occurrences(
                s.suggestion_pool(key, now),
                s.suggested(key, now)[i],
            ) <= occurrences(s.suggestion_pool(key, now), s.suggested(key, now)[j]),
        forall|i: int|
            0 <= i < s.suggested(key, now).len() ==> s.suggestion_pool(key, now).contains(
                #[trigger] s.suggested(key, now)[i],
            ),
{
    let pool = s.suggestion_pool(key, now);
    lemma_ranking_ascending(distinct(pool), pool);
    lemma_distinct_members(pool);
}

/// What two records of an election have in common when they differ in the
/// commitment to the log at most.
pub open spec fn same_terms(one: ElectionView, other: ElectionView) -> bool {
    one == (ElectionView {
        history_len: one.history_len,
        history_hash: one.history_hash,
        ..other
    })
}

/// What two records of a participant have in common when they differ in the
/// commitment to the log at most.
pub open spec fn same_person(one: ParticipantView, other: ParticipantView) -> bool {
    one == (ParticipantView {
        history_len: one.history_len,
        history_hash: one.history_hash,
        ..other
    })
}

/// No accepted transaction takes a record away or changes what it says: an
/// administration stays as it was registered, level included; an election
/// keeps its issuer, its dates and its options; a participant keeps name,
/// contact and residence. Only the commitments to the logs move on.
pub proof fn law_records_keep_their_identity(s: SchemaView, t: SchemaView)
    requires
        s.wf(),
        follows(s, t),
    ensures
        forall|key: AdministrationAddress|
            s.has_administration(key) ==> t.has_administration(key) && (#[trigger] t.administration(
                key,
            )).administration == s.administration(key).administration,
        forall|id: int|
            s.has_election(id) ==> t.has_election(id) && same_terms(
                (#[trigger] t.election(id)).election,
                s.election(id).election,
            ),
        forall|key: ParticipantAddress|
            s.has_participant(key) ==> t.has_participant(key) && same_person(
                (#[trigger] t.participant(key)).participant,
                s.participant(key).participant,
            ),
{
    if exists|context: Invocation, arg: CreateParticipant|
        s.create_participant_outcome(context, arg) == Ok::<SchemaView, ExecutionError>(t) {
        let (context, arg) = choose|context: Invocation, arg: CreateParticipant|
            s.create_participant_outcome(context, arg) == Ok::<SchemaView, ExecutionError>(t);
        lemma_create_participant(
            s,
            context.caller,
            arg.name@,
            arg.email@,
            arg.phone_number@,
            arg.residence.0,
            arg.pass_code@,
            context.transaction_hash->Some_0,
            context.history_hash,
        );
        let place = lower_bound(participant_keys(s.participants), context.caller);
        assert forall|key: ParticipantAddress| s.has_participant(key) implies t.has_participant(
            key,
        ) && same_person(
            (#[trigger] t.participant(key)).participant,
            s.participant(key).participant,
        ) by {
            lemma_find_participant(s, key);
            let i = s.find_participant(key)->Some_0;
            assert(t.find_participant(key) == Some(moved(place, i)));
            assert(t.participants[moved(place, i)] == s.participants[i]);
        }
    } else if exists|context: Invocation, arg: CreateAdministration|
        s.create_administration_outcome(context, arg) == Ok::<SchemaView, ExecutionError>(t) {
        let (context, arg) = choose|context: Invocation, arg: CreateAdministration|
            s.create_administration_outcome(context, arg) == Ok::<SchemaView, ExecutionError>(t);
        lemma_create_administration(
            s,
            context.caller,
            arg.name@,
            arg.principal_key.0,
            arg.area@,
            context.transaction_hash->Some_0,
            context.history_hash,
        );
    } else if exists|context: Invocation, arg: IssueElection|
        s.issue_election_outcome(context, arg) == Ok::<SchemaView, ExecutionError>(t) {
        let (context, arg) = choose|context: Invocation, arg: IssueElection|
            s.issue_election_outcome(context, arg) == Ok::<SchemaView, ExecutionError>(t);
        lemma_find_administration(s, context.caller);
        lemma_issue_election(
            s,
            context.caller,
            arg.name@,
            arg.start_date,
            arg.finish_date,
            titles_view(arg.options@),
            context.transaction_hash->Some_0,
            context.history_hash,
        );
        assert forall|key: AdministrationAddress|
            s.has_administration(key) implies t.has_administration(key) && (
        #[trigger] t.administration(key)).administration == s.administration(
            key,
        ).administration by {
            lemma_find_administration(s, key);
        }
    } else if exists|context: Invocation, now: Timestamp, arg: Vote|
        s.vote_outcome(context, now, arg) == Ok::<SchemaView, ExecutionError>(t) {
        let (context, now, arg) = choose|context: Invocation, now: Timestamp, arg: Vote|
            s.vote_outcome(context, now, arg) == Ok::<SchemaView, ExecutionError>(t);
        law_vote_extends_log(s, context, now, arg);
    } else {
        let (context, now, containing) = choose|
            context: Invocation,
            now: Timestamp,
            containing: Seq<bool>,
        |
            s.submit_location_outcome(context, now, containing) == Ok::<
                SchemaView,
                ExecutionError,
            >(t);
        law_location_extends_log(s, context, now, containing);
        let location = s.jurisdiction(containing)->Some_0;
        lemma_locate(s.administrations, containing, s.administrations.len());
        lemma_administration_at(
            s,
            locate(s.administrations, containing, s.administrations.len())->Some_0,
        );
        lemma_submit_participant_location(
            s,
            context.caller,
            now,
            location,
            context.transaction_hash->Some_0,
            context.history_hash,
        );
        assert forall|key: ParticipantAddress| s.has_participant(key) implies t.has_participant(
            key,
        ) && same_person(
            (#[trigger] t.participant(key)).participant,
            s.participant(key).participant,
        ) by {
            lemma_find_participant(s, key);
            lemma_find_participant(s, context.caller);
        }
    }
}

} // verus!
