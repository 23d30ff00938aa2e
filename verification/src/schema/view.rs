//! The ledger as a mathematical value: what it holds, what holds of it, and
//! the state that each change leads to.

use vstd::prelude::*;
use crate::crypto::{Address, Digest};
use crate::model::geo::PolygonView;
use crate::model::time::Timestamp;
use crate::model::{
    AdministrationAddress, AdministrationView, ElectionOptionAddress, ElectionOptionView,
    ElectionView, ParticipantAddress, ParticipantView,
};
use crate::schema::table::{find, lower_bound, strictly_increasing};

verus! {

/// One entry of a participant's location history: where the participant was
/// found to be, and when.
#[derive(Clone, Copy, Debug, PartialEq, Eq, Structural)]
pub struct TimePositionInfo {
    pub time: Timestamp,
    pub location: AdministrationAddress,
}

/// One accepted vote: who voted, and for which option.
#[derive(Clone, Copy, Debug, PartialEq, Eq, Structural)]
pub struct Ballot {
    pub voter: ParticipantAddress,
    pub option_id: ElectionOptionAddress,
}

/// A participant with the logs that the ledger keeps for it.
pub struct ParticipantEntryView {
    pub participant: ParticipantView,
    /// The hashes of the transactions that changed the participant, oldest first.
    pub history: Seq<Digest>,
    /// The locations that the participant submitted, oldest first.
    pub locations: Seq<TimePositionInfo>,
}

/// An administration with the logs that the ledger keeps for it.
pub struct AdministrationEntryView {
    pub administration: AdministrationView,
    /// The hashes of the transactions that changed the administration, oldest first.
    pub history: Seq<Digest>,
    /// The addresses of the elections that the administration issued, oldest first.
    pub elections: Seq<int>,
}

/// An election with its log and its votes.
pub struct ElectionEntryView {
    pub election: ElectionView,
    /// The hashes of the transactions that changed the election, oldest first.
    pub history: Seq<Digest>,
    /// The accepted votes, ordered by the address of the voter.
    pub votes: Seq<Ballot>,
}

/// The whole ledger: three tables, each with the logs of its entries.
pub struct SchemaView {
    /// The participants, ordered by address.
    pub participants: Seq<ParticipantEntryView>,
    /// The administrations, ordered by address.
    pub administrations: Seq<AdministrationEntryView>,
    /// The elections; the election at index `i` has the address `i`.
    pub elections: Seq<ElectionEntryView>,
    /// The name of the time oracle, once the ledger is configured.
    pub config: Option<Seq<char>>,
}

/// The addresses of a list of participants, in the order of the list.
pub open spec fn participant_keys(entries: Seq<ParticipantEntryView>) -> Seq<Address> {
    Seq::new(entries.len(), |i: int| entries[i].participant.addr)
}

/// The addresses of a list of administrations, in the order of the list.
pub open spec fn administration_keys(entries: Seq<AdministrationEntryView>) -> Seq<Address> {
    Seq::new(entries.len(), |i: int| entries[i].administration.addr)
}

/// The voters of a list of votes, in the order of the votes.
pub open spec fn voters(votes: Seq<Ballot>) -> Seq<Address> {
    Seq::new(votes.len(), |i: int| votes[i].voter)
}

/// The options that a list of titles declares: numbered from zero, in order.
pub open spec fn numbered_options(titles: Seq<Seq<char>>) -> Seq<ElectionOptionView> {
    Seq::new(titles.len(), |i: int| ElectionOptionView { id: i, title: titles[i] })
}

impl SchemaView {
    /// The ledger before any transaction.
    pub open spec fn empty() -> SchemaView {
        SchemaView {
            participants: Seq::empty(),
            administrations: Seq::empty(),
            elections: Seq::empty(),
            config: None,
        }
    }

    /// The index of the participant with the address `key`, if there is one.
    pub open spec fn find_participant(self, key: ParticipantAddress) -> Option<int> {
        find(participant_keys(self.participants), key)
    }

    /// A participant has the address `key`.
    pub open spec fn has_participant(self, key: ParticipantAddress) -> bool {
        self.find_participant(key) is Some
    }

    /// The entry of the participant with the address `key`.
    pub open spec fn participant(self, key: ParticipantAddress) -> ParticipantEntryView
        recommends
            self.has_participant(key),
    {
        self.participants[self.find_participant(key).unwrap()]
    }

    /// The index of the administration with the address `key`, if there is one.
    pub open spec fn find_administration(self, key: AdministrationAddress) -> Option<int> {
        find(administration_keys(self.administrations), key)
    }

    /// An administration has the address `key`.
    pub open spec fn has_administration(self, key: AdministrationAddress) -> bool {
        self.find_administration(key) is Some
    }

    /// The entry of the administration with the address `key`.
    pub open spec fn administration(self, key: AdministrationAddress) -> AdministrationEntryView
        recommends
            self.has_administration(key),
    {
        self.administrations[self.find_administration(key).unwrap()]
    }

    /// An election has the address `id`.
    pub open spec fn has_election(self, id: int) -> bool {
        0 <= id < self.elections.len()
    }

    /// The entry of the election with the address `id`.
    pub open spec fn election(self, id: int) -> ElectionEntryView
        recommends
            self.has_election(id),
    {
        self.elections[id]
    }

    /// The participant `voter` has a vote on record in the election `id`.
    pub open spec fn voted_yet(self, id: int, voter: ParticipantAddress) -> bool {
        self.has_election(id) && find(voters(self.election(id).votes), voter) is Some
    }

    /// What holds of the participant at index `i`: the record counts its own
    /// log, and every location on record is an administration of the ledger.
    pub open spec fn participant_wf(self, i: int) -> bool {
        let entry = self.participants[i];
        &&& entry.participant.history_len == entry.history.len()
        &&& forall|k: int|
            0 <= k < entry.locations.len() ==> self.has_administration(
                (#[trigger] entry.locations[k]).location,
            )
    }

    /// What holds of the administration at index `i`: the record counts its own
    /// log; a root has level zero and any other stands one level below its
    /// principal, which is on the ledger; and its list of elections names, in
    /// increasing order, elections that it issued.
    pub open spec fn administration_wf(self, i: int) -> bool {
        let entry = self.administrations[i];
        &&& entry.administration.history_len == entry.history.len()
        &&& match entry.administration.principal_key {
            None => entry.administration.administration_level == 0,
            Some(principal) => self.has_administration(principal) && self.administration(
                principal,
            ).administration.administration_level + 1
                == entry.administration.administration_level,
        }
        &&& forall|k: int|
            0 <= k < entry.elections.len() ==> self.has_election(#[trigger] entry.elections[k])
                && self.election(entry.elections[k]).election.issuer == entry.administration.addr
        &&& forall|k: int, l: int|
            0 <= k < l < entry.elections.len() ==> entry.elections[k] < entry.elections[l]
    }

    /// What holds of the election at index `i`: its address is `i`; the record
    /// counts its own log; it is not cancelled and starts before it finishes;
    /// its options are numbered from zero; its issuer is on the ledger and
    /// lists it; and its votes are ordered by voter, one for each, and name
    /// options of the election.
    pub open spec fn election_wf(self, i: int) -> bool {
        let entry = self.elections[i];
        &&& entry.election.addr == i
        &&& entry.election.history_len == entry.history.len()
        &&& !entry.election.is_cancelled
        &&& entry.election.start_date.precedes(entry.election.finish_date)
        &&& forall|k: int|
            0 <= k < entry.election.options.len() ==> (#[trigger] entry.election.options[k]).id
                == k
        &&& self.has_administration(entry.election.issuer)
        &&& self.administration(entry.election.issuer).elections.contains(i)
        &&& strictly_increasing(voters(entry.votes))
        &&& forall|k: int|
            0 <= k < entry.votes.len() ==> 0 <= (#[trigger] entry.votes[k]).option_id
                < entry.election.options.len()
    }

    /// The ledger is well formed: both address tables are ordered without
    /// repetition, and every entry is as the three predicates above say.
    pub open spec fn wf(self) -> bool {
        &&& strictly_increasing(participant_keys(self.participants))
        &&& strictly_increasing(administration_keys(self.administrations))
        &&& forall|i: int| 0 <= i < self.participants.len() ==> #[trigger] self.participant_wf(i)
        &&& forall|i: int|
            0 <= i < self.administrations.len() ==> #[trigger] self.administration_wf(i)
        &&& forall|i: int| 0 <= i < self.elections.len() ==> #[trigger] self.election_wf(i)
    }

    /// The level at which an administration with the given principal stands.
    pub open spec fn level_under(self, principal: Option<AdministrationAddress>) -> nat {
        match principal {
            None => 0,
            Some(key) => self.administration(key).administration.administration_level + 1,
        }
    }

    /// The ledger after `key` registered as a participant through the
    /// transaction `transaction`.
    pub open spec fn create_participant(
        self,
        key: ParticipantAddress,
        name: Seq<char>,
        email: Seq<char>,
        phone_number: Seq<char>,
        residence: Option<AdministrationAddress>,
        pass_code: Seq<char>,
        transaction: Digest,
        history_hash: Digest,
    ) -> SchemaView {
        let entry = ParticipantEntryView {
            participant: ParticipantView {
                addr: key,
                name,
                email,
                phone_number,
                pass_code,
                residence,
                history_len: 1,
                history_hash,
            },
            history: seq![transaction],
            locations: Seq::empty(),
        };
        SchemaView {
            participants: self.participants.insert(
                lower_bound(participant_keys(self.participants), key),
                entry,
            ),
            ..self
        }
    }

    /// The ledger after the participant `key` was found to be in `location`
    /// at `time`, through the transaction `transaction`.
    pub open spec fn submit_participant_location(
        self,
        key: ParticipantAddress,
        time: Timestamp,
        location: AdministrationAddress,
        transaction: Digest,
        history_hash: Digest,
    ) -> SchemaView
        recommends
            self.has_participant(key),
    {
        let i = self.find_participant(key).unwrap();
        let old = self.participants[i];
        let entry = ParticipantEntryView {
            participant: ParticipantView {
                history_len: old.participant.history_len + 1,
                history_hash,
                ..old.participant
            },
            history: old.history.push(transaction),
            locations: old.locations.push(TimePositionInfo { time, location }),
        };
        SchemaView { participants: self.participants.update(i, entry), ..self }
    }

    /// The ledger after `key` registered as an administration through the
    /// transaction `transaction`.
    pub open spec fn create_administration(
        self,
        key: AdministrationAddress,
        name: Seq<char>,
        principal: Option<AdministrationAddress>,
        area: PolygonView,
        transaction: Digest,
        history_hash: Digest,
    ) -> SchemaView {
        let entry = AdministrationEntryView {
            administration: AdministrationView {
                addr: key,
                name,
                principal_key: principal,
                area,
                administration_level: self.level_under(principal),
                history_len: 1,
                history_hash,
            },
            history: seq![transaction],
            elections: Seq::empty(),
        };
        SchemaView {
            administrations: self.administrations.insert(
                lower_bound(administration_keys(self.administrations), key),
                entry,
            ),
            ..self
        }
    }

    /// The address that the next election gets: one more than the greatest
    /// address in use, and zero on a ledger without elections.
    pub open spec fn next_election_address(self) -> int {
        self.elections.len() as int
    }

    /// The ledger after the administration `issuer` issued an election
    /// through the transaction `transaction`.
    pub open spec fn issue_election(
        self,
        issuer: AdministrationAddress,
        name: Seq<char>,
        start_date: Timestamp,
        finish_date: Timestamp,
        titles: Seq<Seq<char>>,
        transaction: Digest,
        history_hash: Digest,
    ) -> SchemaView
        recommends
            self.has_administration(issuer),
    {
        let addr = self.next_election_address();
        let entry = ElectionEntryView {
            election: ElectionView {
                addr,
                issuer,
                name,
                is_cancelled: false,
                start_date,
                finish_date,
                options: numbered_options(titles),
                history_len: 1,
                history_hash,
            },
            history: seq![transaction],
            votes: Seq::empty(),
        };
        let i = self.find_administration(issuer).unwrap();
        let old = self.administrations[i];
        let listed = AdministrationEntryView { elections: old.elections.push(addr), ..old };
        SchemaView {
            administrations: self.administrations.update(i, listed),
            elections: self.elections.push(entry),
            ..self
        }
    }

    /// The ledger after the participant `voter` voted for `option_id` in the
    /// election `id` through the transaction `transaction`.
    pub open spec fn vote(
        self,
        id: int,
        voter: ParticipantAddress,
        option_id: ElectionOptionAddress,
        transaction: Digest,
        history_hash: Digest,
    ) -> SchemaView
        recommends
            self.has_election(id),
    {
        let old = self.elections[id];
        let entry = ElectionEntryView {
            election: ElectionView {
                history_len: old.election.history_len + 1,
                history_hash,
                ..old.election
            },
            history: old.history.push(transaction),
            votes: old.votes.insert(
                lower_bound(voters(old.votes), voter),
                Ballot { voter, option_id },
            ),
        };
        SchemaView { elections: self.elections.update(id, entry), ..self }
    }

    /// The ledger after it was told the name of its time oracle.
    pub open spec fn configure(self, time_service_name: Seq<char>) -> SchemaView {
        SchemaView { config: Some(time_service_name), ..self }
    }
}

} // verus!
