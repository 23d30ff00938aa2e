//! The read-only queries that the service answers.

use std::collections::HashMap;
use vstd::prelude::*;
use crate::crypto::Digest;
use crate::error::QueryError;
use crate::model::public_api::{convert, forest_view, ElectionConvert, ElectionConvertView, ElectionGroup, ElectionGroupView, InfoRequest, KeyQuery, Node};
use crate::model::time::Timestamp;
use crate::model::wrappers::{HashedKeyModeWrapper, KeyMode, RawKeyModeWrapper, TypeWrapper};
use crate::model::{
    AdministrationAddress, Election, ElectionAddress, ElectionOptionAddress, ElectionView,
    ParticipantAddress,
};
use crate::schema::hierarchy::{elections_of, MAX_RECURSION_DEPTH};
use crate::schema::recommend::{first_of, recent_span};
use crate::schema::view::SchemaView;
use crate::schema::{elections_view, ElectionSchema};
use crate::service::{find_oracle, lookup_oracle, TimeOracle};

verus! {

/// Election public web api
#[derive(Debug, Clone, Copy)]
pub struct PublicApi;

/// The name of the table of participants.
pub const PARTICIPANTS_INDEX: &'static str = "participants";

/// The name of the table of administrations.
pub const ADMINISTRATIONS_INDEX: &'static str = "administrations";

/// The name of the table of elections.
pub const ELECTIONS_INDEX: &'static str = "elections";

/// How many administrations are suggested to a participant, at most.
pub const SUGGESTED_GROUPS: usize = 5;

/// The ledger time as the oracles tell it: the time of the first oracle that
/// runs under the configured name.
pub open spec fn spec_get_time(s: SchemaView, oracles: Seq<TimeOracle>) -> Result<
    Timestamp,
    QueryError,
> {
    match s.config {
        None => Err(QueryError::ConfigNotFound),
        Some(name) => match find_oracle(oracles, name) {
            None => Err(QueryError::TimeServiceNotFound),
            Some(i) => match oracles[i].time {
                None => Err(QueryError::TimeNotSet),
                Some(now) => Ok(now),
            },
        },
    }
}

impl SchemaView {
    /// The election `election` as the participant `key` sees it: with the
    /// standing of every option once the participant has voted in it, and
    /// without before.
    pub open spec fn election_seen_by(self, election: ElectionView, key: ParticipantAddress) -> ElectionConvertView {
        if self.voted_yet(election.addr, key) {
            convert(election, true, Some(self.election_results(election.addr)))
        } else {
            convert(election, false, None)
        }
    }

    /// The elections of the administration `administration` that take votes
    /// at `now`, as the participant `key` sees them, under the name of the
    /// administration.
    pub open spec fn group_seen_by(
        self,
        administration: AdministrationAddress,
        key: ParticipantAddress,
        now: Timestamp,
    ) -> ElectionGroupView {
        let open = self.elections_at_moment(administration, now);
        ElectionGroupView {
            organization_name: self.administration(administration).administration.name,
            elections: Seq::new(open.len(), |i: int| self.election_seen_by(open[i], key)),
        }
    }

    /// What is suggested to the participant `key` at `now`: the groups of the
    /// first five suggested administrations.
    pub open spec fn suggested_groups(self, key: ParticipantAddress, now: Timestamp) -> Seq<
        ElectionGroupView,
    > {
        let first = first_of(self.suggested(key, now), SUGGESTED_GROUPS as nat);
        Seq::new(first.len(), |i: int| self.group_seen_by(first[i], key, now))
    }

    /// No election holds more votes than a count can tell.
    pub open spec fn tallies_fit(self) -> bool {
        forall|id: int| self.has_election(id) ==> (#[trigger] self.election(id)).votes.len()
            <= u32::MAX
    }
}

/// The contents of a list of groups.
pub open spec fn groups_view(groups: Seq<ElectionGroup>) -> Seq<ElectionGroupView> {
    Seq::new(groups.len(), |i: int| groups[i]@)
}

/// What has to be assembled for a record of the table `index_name`, whose
/// keys are read in the mode `key_mode` and whose log, if it exists, is `history`.
pub open spec fn info_request(
    request: InfoRequest,
    index_name: Seq<char>,
    key_mode: KeyMode,
    history: Option<Seq<Digest>>,
) -> bool {
    &&& request.index_name@ == index_name
    &&& request.key_mode == key_mode
    &&& match request.history {
        Some(log) => history == Some(log@),
        None => history is None,
    }
}

impl PublicApi {
    /// What has to be assembled for the complete info of a participant: the
    /// table of participants takes its keys as they are.
    pub fn participant_info(schema: &ElectionSchema, query: KeyQuery<ParticipantAddress>) -> (request:
        InfoRequest)
        requires
            schema.wf(),
        ensures
            info_request(
                request,
                PARTICIPANTS_INDEX@,
                KeyMode::Raw,
                if schema@.has_participant(query.key) {
                    Some(schema@.participant(query.key).history)
                } else {
                    None
                },
            ),
    {
        let history = match schema.participant(&query.key) {
            Some(_) => Some(schema.participant_history(&query.key)),
            None => None,
        };
        InfoRequest {
            index_name: PARTICIPANTS_INDEX.to_owned(),
            key_mode: RawKeyModeWrapper::key_mode(),
            history,
        }
    }

    /// What has to be assembled for the complete info of an administration:
    /// the table of administrations takes its keys as they are.
    pub fn administration_info(schema: &ElectionSchema, query: KeyQuery<AdministrationAddress>) -> (request:
        InfoRequest)
        requires
            schema.wf(),
        ensures
            info_request(
                request,
                ADMINISTRATIONS_INDEX@,
                KeyMode::Raw,
                if schema@.has_administration(query.key) {
                    Some(schema@.administration(query.key).history)
                } else {
                    None
                },
            ),
    {
        let history = match schema.administration(&query.key) {
            Some(_) => Some(schema.administration_history(&query.key)),
            None => None,
        };
        InfoRequest {
            index_name: ADMINISTRATIONS_INDEX.to_owned(),
            key_mode: RawKeyModeWrapper::key_mode(),
            history,
        }
    }

    /// What has to be assembled for the complete info of an election: the
    /// table of elections hashes its keys.
    pub fn election_info(schema: &ElectionSchema, query: KeyQuery<ElectionAddress>) -> (request:
        InfoRequest)
        ensures
            info_request(
                request,
                ELECTIONS_INDEX@,
                KeyMode::Hashed,
                if schema@.has_election(query.key as int) {
                    Some(schema@.election(query.key as int).history)
                } else {
                    None
                },
            ),
    {
        let history = match schema.election(query.key) {
            Some(_) => Some(schema.election_history(query.key)),
            None => None,
        };
        InfoRequest {
            index_name: ELECTIONS_INDEX.to_owned(),
            key_mode: HashedKeyModeWrapper::key_mode(),
            history,
        }
    }

    /// All elections of the ledger, in the order of their addresses.
    pub fn all_elections(schema: &ElectionSchema) -> (list: Vec<Election>)
        ensures
            elections_of(list@) == Seq::new(
                schema@.elections.len(),
                |i: int| schema@.elections[i].election,
            ),
    {
        let entries = schema.elections();
        let mut list: Vec<Election> = Vec::new();
        let mut i: usize = 0;
        while i < entries.len()
            invariant
                i <= entries.len(),
                list@.len() == i,
                elections_view(entries@) == schema@.elections,
                forall|k: int| 0 <= k < i ==> (#[trigger] list@[k])@ == schema@.elections[k].election,
            decreases entries.len() - i,
        {
            assert(entries@[i as int]@ == schema@.elections[i as int]);
            list.push(entries[i].election.clone());
            i = i + 1;
        }
        assert(elections_of(list@) =~= Seq::new(
            schema@.elections.len(),
            |i: int| schema@.elections[i].election,
        ));
        list
    }

    /// Reads the ledger time: the time of the first oracle that runs under
    /// the configured name. Fails with `ConfigNotFound` on a ledger without
    /// configuration, with `TimeServiceNotFound` where no oracle runs under
    /// the configured name, and with `TimeNotSet` while that oracle tells none.
    pub fn get_time(schema: &ElectionSchema, oracles: &Vec<TimeOracle>) -> (time: Result<
        Timestamp,
        QueryError,
    >)
        ensures
            time == spec_get_time(schema@, oracles@),
    {
        let config = match schema.config() {
            Some(config) => config,
            None => {
                return Err(QueryError::ConfigNotFound);
            },
        };
        let oracle = match lookup_oracle(oracles, &config.time_service_name) {
            Some(oracle) => oracle,
            None => {
                return Err(QueryError::TimeServiceNotFound);
            },
        };
        match oracle.time {
            Some(now) => Ok(now),
            None => Err(QueryError::TimeNotSet),
        }
    }

    /// The elections visible from the administration of the query that take
    /// votes at the ledger time. Fails as [`PublicApi::get_time`] does; then
    /// with `NotFound` where the ledger has no such administration, and with
    /// `RecursionLimitExceeded` where it stands too deep in the hierarchy.
    pub fn active_elections(
        schema: &ElectionSchema,
        query: KeyQuery<AdministrationAddress>,
        oracles: &Vec<TimeOracle>,
    ) -> (found: Result<Vec<Election>, QueryError>)
        requires
            schema.wf(),
        ensures
            match spec_get_time(schema@, oracles@) {
                Err(error) => found == Err::<Vec<Election>, QueryError>(error),
                Ok(now) => match found {
                    Ok(list) => schema@.has_administration(query.key) && schema@.level(query.key)
                        <= MAX_RECURSION_DEPTH && elections_of(list@) == schema@.elections_in_range(
                        query.key,
                        now,
                        now,
                    ),
                    Err(error) => if schema@.has_administration(query.key) {
                        error == QueryError::RecursionLimitExceeded && schema@.level(query.key)
                            > MAX_RECURSION_DEPTH
                    } else {
                        error == QueryError::NotFound
                    },
                },
            },
    {
        let now = match PublicApi::get_time(schema, oracles) {
            Ok(now) => now,
            Err(error) => {
                return Err(error);
            },
        };
        schema.active_elections(&query.key, now)
    }

    /// The standing of the election of the query: every declared option with
    /// the number of votes for it. Fails with `NotFound` where the ledger has
    /// no such election.
    pub fn election_results(schema: &ElectionSchema, query: KeyQuery<ElectionAddress>) -> (found:
        Result<HashMap<ElectionOptionAddress, u32>, QueryError>)
        requires
            schema.wf(),
            schema@.election_votes(query.key as int).len() <= u32::MAX,
        ensures
            match found {
                Ok(sum) => schema@.has_election(query.key as int) && sum@
                    == schema@.election_results(query.key as int),
                Err(error) => error == QueryError::NotFound && !schema@.has_election(
                    query.key as int,
                ),
            },
    {
        match schema.election_results(query.key) {
            Some(sum) => Ok(sum),
            None => Err(QueryError::NotFound),
        }
    }

    /// The hierarchy of administrations as a list of trees. Fails with
    /// `RecursionLimitExceeded` where the hierarchy goes too deep.
    pub fn administrations_tree(schema: &ElectionSchema) -> (built: Result<
        Vec<Node<AdministrationAddress, String>>,
        QueryError,
    >)
        ensures
            match built {
                Ok(nodes) => !schema@.tree_too_deep() && forest_view(nodes@)
                    == schema@.administration_tree(),
                Err(error) => error == QueryError::RecursionLimitExceeded
                    && schema@.tree_too_deep(),
            },
    {
        schema.administration_tree()
    }

    /// Shows the election `election` as the participant `key` sees it.
    fn show_election(schema: &ElectionSchema, election: Election, key: &ParticipantAddress) -> (seen:
        ElectionConvert)
        requires
            schema.wf(),
            schema@.tallies_fit(),
        ensures
            seen@ == schema@.election_seen_by(election@, *key),
    {
        if schema.voted_yet(election.addr, key) {
            assert(schema@.election(election.addr as int).votes.len() <= u32::MAX);
            let results = schema.election_results(election.addr).unwrap();
            ElectionConvert::from_results(election, true, &results)
        } else {
            ElectionConvert::from_election(election)
        }
    }

    /// Shows the elections of the administration `administration` that take
    /// votes at `now`, as the participant `key` sees them.
    fn show_group(
        schema: &ElectionSchema,
        administration: &AdministrationAddress,
        key: &ParticipantAddress,
        now: Timestamp,
    ) -> (group: ElectionGroup)
        requires
            schema.wf(),
            schema@.tallies_fit(),
            schema@.has_administration(*administration),
        ensures
            group@ == schema@.group_seen_by(*administration, *key, now),
    {
        let organization_name = schema.administration(administration).unwrap().name.clone();
        let open = schema.elections_available_at_moment(administration, now).unwrap();
        let ghost all = elections_of(open@);
        let ghost target = schema@.group_seen_by(*administration, *key, now);
        let mut elections: Vec<ElectionConvert> = Vec::new();
        let mut i: usize = 0;
        while i < open.len()
            invariant
                schema.wf(),
                schema@.tallies_fit(),
                i <= open.len(),
                all == elections_of(open@),
                elections@.len() == i,
                forall|k: int|
                    0 <= k < i ==> (#[trigger] elections@[k])@ == schema@.election_seen_by(
                        all[k],
                        *key,
                    ),
            decreases open.len() - i,
        {
            elections.push(PublicApi::show_election(schema, open[i].clone(), key));
            i = i + 1;
        }
        let group = ElectionGroup { organization_name, elections };
        assert(group@.elections =~= target.elections);
        group
    }

    /// What is suggested to the participant of the query at the ledger time:
    /// at most five administrations, those that occur least often among the
    /// participant's recent locations, residence and the roots first, each
    /// with its elections that take votes now. Fails as
    /// [`PublicApi::get_time`] does; then with `NotFound` where the ledger
    /// has no such participant.
    pub fn elections_suggested_for(
        schema: &ElectionSchema,
        query: KeyQuery<ParticipantAddress>,
        oracles: &Vec<TimeOracle>,
    ) -> (found: Result<(Vec<ElectionGroup>, Timestamp), QueryError>)
        requires
            schema.wf(),
            schema@.tallies_fit(),
            schema@.residence_known(query.key),
            spec_get_time(schema@, oracles@) matches Ok(now) ==> now.shifted(-recent_span())
                is Some,
        ensures
            match spec_get_time(schema@, oracles@) {
                Err(error) => found == Err::<(Vec<ElectionGroup>, Timestamp), QueryError>(error),
                Ok(now) => match found {
                    Ok((groups, time)) => time == now && schema@.has_participant(query.key)
                        && groups_view(groups@) == schema@.suggested_groups(query.key, now),
                    Err(error) => error == QueryError::NotFound && !schema@.has_participant(
                        query.key,
                    ),
                },
            },
    {
        let time = match PublicApi::get_time(schema, oracles) {
            Ok(now) => now,
            Err(error) => {
                return Err(error);
            },
        };
        let administrations = match schema.suggested_administrations_for(&query.key, time) {
            Some(list) => list,
            None => {
                return Err(QueryError::NotFound);
            },
        };
        let ghost first = first_of(administrations@, SUGGESTED_GROUPS as nat);
        let mut groups: Vec<ElectionGroup> = Vec::new();
        let mut i: usize = 0;
        while i < administrations.len() && i < SUGGESTED_GROUPS
            invariant
                schema.wf(),
                schema@.tallies_fit(),
                i <= administrations.len(),
                i <= SUGGESTED_GROUPS,
                first == first_of(administrations@, SUGGESTED_GROUPS as nat),
                forall|k: int|
                    0 <= k < administrations@.len() ==> schema@.has_administration(
                        #[trigger] administrations@[k],
                    ),
                groups@.len() == i,
                forall|k: int|
                    0 <= k < i ==> (#[trigger] groups@[k])@ == schema@.group_seen_by(
                        first[k],
                        query.key,
                        time,
                    ),
            decreases administrations.len() - i,
        {
            assert(first[i as int] == administrations@[i as int]);
            assert(schema@.has_administration(administrations@[i as int]));
            groups.push(PublicApi::show_group(schema, &administrations[i], &query.key, time));
            i = i + 1;
        }
        assert(groups_view(groups@) =~= schema@.suggested_groups(query.key, time));
        Ok((groups, time))
    }
}

} // verus!
