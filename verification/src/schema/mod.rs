//! The ledger: its tables, what holds of them, and how transactions change them.

pub mod elections;
pub mod hierarchy;
pub mod lemmas;
pub mod logs;
pub mod participant_schema;
pub mod recommend;
pub mod repository;
pub mod restore;
pub mod table;
pub mod tree;
pub mod view;

use vstd::prelude::*;
use crate::crypto::{Address, Digest};
use crate::model::geo::Polygon;
use crate::model::time::Timestamp;
use crate::model::transactions::{Config, CreateParticipant};
use crate::model::wrappers::OptionalContainer;
use crate::model::{Administration, AdministrationAddress, Election, ElectionAddress, ElectionOption, ElectionOptionAddress, Participant, ParticipantAddress};
use crate::schema::lemmas::{
    lemma_configure, lemma_create_administration, lemma_create_participant,
    lemma_find_administration, lemma_find_participant, lemma_issue_election,
    lemma_submit_participant_location, lemma_vote,
};
use crate::schema::table::{keys_of, lemma_find_sound, position, Keyed};
use crate::schema::view::{
    administration_keys, numbered_options, participant_keys, voters, AdministrationEntryView,
    Ballot, ElectionEntryView, ParticipantEntryView, SchemaView, TimePositionInfo,
};

verus! {

/// A participant with the logs that the ledger keeps for it.
#[derive(Debug)]
pub struct ParticipantEntry {
    pub participant: Participant,
    /// The hashes of the transactions that changed the participant, oldest first.
    pub history: Vec<Digest>,
    /// The locations that the participant submitted, oldest first.
    pub locations: Vec<TimePositionInfo>,
}

/// An administration with the logs that the ledger keeps for it.
#[derive(Debug)]
pub struct AdministrationEntry {
    pub administration: Administration,
    /// The hashes of the transactions that changed the administration, oldest first.
    pub history: Vec<Digest>,
    /// The addresses of the elections that the administration issued, oldest first.
    pub elections: Vec<ElectionAddress>,
}

/// An election with its log and its votes.
#[derive(Debug)]
pub struct ElectionEntry {
    pub election: Election,
    /// The hashes of the transactions that changed the election, oldest first.
    pub history: Vec<Digest>,
    /// The accepted votes, ordered by the address of the voter.
    pub votes: Vec<Ballot>,
}

impl View for ParticipantEntry {
    type V = ParticipantEntryView;

    open spec fn view(&self) -> ParticipantEntryView {
        ParticipantEntryView {
            participant: self.participant@,
            history: self.history@,
            locations: self.locations@,
        }
    }
}

impl View for AdministrationEntry {
    type V = AdministrationEntryView;

    open spec fn view(&self) -> AdministrationEntryView {
        AdministrationEntryView {
            administration: self.administration@,
            history: self.history@,
            elections: Seq::new(self.elections@.len(), |i: int| self.elections@[i] as int),
        }
    }
}

impl View for ElectionEntry {
    type V = ElectionEntryView;

    open spec fn view(&self) -> ElectionEntryView {
        ElectionEntryView { election: self.election@, history: self.history@, votes: self.votes@ }
    }
}

impl Keyed for ParticipantEntry {
    open spec fn key(&self) -> Address {
        self.participant.addr
    }

    fn address(&self) -> (key: Address) {
        self.participant.addr
    }
}

impl Keyed for AdministrationEntry {
    open spec fn key(&self) -> Address {
        self.administration.addr
    }

    fn address(&self) -> (key: Address) {
        self.administration.addr
    }
}

impl Keyed for Ballot {
    open spec fn key(&self) -> Address {
        self.voter
    }

    fn address(&self) -> (key: Address) {
        self.voter
    }
}

/// The contents of a table of participants.
pub open spec fn participants_view(entries: Seq<ParticipantEntry>) -> Seq<ParticipantEntryView> {
    Seq::new(entries.len(), |i: int| entries[i]@)
}

/// The contents of a table of administrations.
pub open spec fn administrations_view(entries: Seq<AdministrationEntry>) -> Seq<
    AdministrationEntryView,
> {
    Seq::new(entries.len(), |i: int| entries[i]@)
}

/// The contents of a table of elections.
pub open spec fn elections_view(entries: Seq<ElectionEntry>) -> Seq<ElectionEntryView> {
    Seq::new(entries.len(), |i: int| entries[i]@)
}

/// The ledger of participants, administrations and elections.
#[derive(Debug)]
pub struct ElectionSchema {
    participants: Vec<ParticipantEntry>,
    administrations: Vec<AdministrationEntry>,
    elections: Vec<ElectionEntry>,
    config: Option<Config>,
}

impl View for ElectionSchema {
    type V = SchemaView;

    closed spec fn view(&self) -> SchemaView {
        SchemaView {
            participants: participants_view(self.participants@),
            administrations: administrations_view(self.administrations@),
            elections: elections_view(self.elections@),
            config: match self.config {
                Some(config) => Some(config.time_service_name@),
                None => None,
            },
        }
    }
}

impl ElectionSchema {
    /// The ledger is well formed.
    pub open spec fn wf(&self) -> bool {
        self@.wf()
    }

    /// Opens a ledger without entries.
    pub fn new() -> (schema: ElectionSchema)
        ensures
            schema@ == SchemaView::empty(),
            schema.wf(),
    {
        let schema = ElectionSchema {
            participants: Vec::new(),
            administrations: Vec::new(),
            elections: Vec::new(),
            config: None,
        };
        assert(schema@.participants =~= Seq::empty());
        assert(schema@.administrations =~= Seq::empty());
        assert(schema@.elections =~= Seq::empty());
        assert(participant_keys(schema@.participants) =~= Seq::empty());
        assert(administration_keys(schema@.administrations) =~= Seq::empty());
        schema
    }

    /// Puts a ledger together from tables that are known to fit each other.
    pub(crate) fn assemble(
        participants: Vec<ParticipantEntry>,
        administrations: Vec<AdministrationEntry>,
        elections: Vec<ElectionEntry>,
        config: Option<Config>,
    ) -> (schema: ElectionSchema)
        ensures
            schema@ == (SchemaView {
                participants: participants_view(participants@),
                administrations: administrations_view(administrations@),
                elections: elections_view(elections@),
                config: match config {
                    Some(c) => Some(c.time_service_name@),
                    None => None,
                },
            }),
    {
        ElectionSchema { participants, administrations, elections, config }
    }

    /// The table of participants, in the order of their addresses.
    pub fn participants(&self) -> (entries: &Vec<ParticipantEntry>)
        ensures
            participants_view(entries@) == self@.participants,
    {
        &self.participants
    }

    /// The table of administrations, in the order of their addresses.
    pub fn administrations(&self) -> (entries: &Vec<AdministrationEntry>)
        ensures
            administrations_view(entries@) == self@.administrations,
    {
        &self.administrations
    }

    /// The table of elections, in the order of their addresses.
    pub fn elections(&self) -> (entries: &Vec<ElectionEntry>)
        ensures
            elections_view(entries@) == self@.elections,
    {
        &self.elections
    }

    /// The configuration, once the ledger has one.
    pub fn config(&self) -> (config: &Option<Config>)
        ensures
            match *config {
                Some(c) => self@.config == Some(c.time_service_name@),
                None => self@.config is None,
            },
    {
        &self.config
    }

    /// Sets the configuration.
    pub fn set_config(&mut self, config: Config)
        requires
            old(self).wf(),
        ensures
            final(self).wf(),
            final(self)@ == old(self)@.configure(config.time_service_name@),
    {
        proof {
            lemma_configure(self@, config.time_service_name@);
        }
        self.config = Some(config);
    }

    /// Looks up the index of the participant with the address `key`.
    pub fn participant_index(&self, key: &ParticipantAddress) -> (found: Option<usize>)
        requires
            self.wf(),
        ensures
            match found {
                Some(i) => self@.find_participant(*key) == Some(i as int),
                None => self@.find_participant(*key) is None,
            },
    {
        proof {
            assert(keys_of(self.participants@) =~= participant_keys(self@.participants));
            lemma_find_sound(participant_keys(self@.participants), *key);
        }
        let place = position(&self.participants, key);
        if place < self.participants.len() && self.participants[place].participant.addr == *key {
            Some(place)
        } else {
            None
        }
    }

    /// Looks up the index of the administration with the address `key`.
    pub fn administration_index(&self, key: &AdministrationAddress) -> (found: Option<usize>)
        requires
            self.wf(),
        ensures
            match found {
                Some(i) => self@.find_administration(*key) == Some(i as int),
                None => self@.find_administration(*key) is None,
            },
    {
        proof {
            assert(keys_of(self.administrations@) =~= administration_keys(self@.administrations));
            lemma_find_sound(administration_keys(self@.administrations), *key);
        }
        let place = position(&self.administrations, key);
        if place < self.administrations.len() && self.administrations[place].administration.addr
            == *key {
            Some(place)
        } else {
            None
        }
    }

    /// Records the participant that `participant` registers under `key`:
    /// a new entry whose log holds the registering transaction alone.
    pub fn create_participant(
        &mut self,
        key: &ParticipantAddress,
        participant: CreateParticipant,
        transaction: &Digest,
        history_hash: &Digest,
    )
        requires
            old(self).wf(),
            !old(self)@.has_participant(*key),
        ensures
            final(self).wf(),
            final(self)@ == old(self)@.create_participant(
                *key,
                participant.name@,
                participant.email@,
                participant.phone_number@,
                participant.residence.0,
                participant.pass_code@,
                *transaction,
                *history_hash,
            ),
    {
        proof {
            assert(keys_of(self.participants@) =~= participant_keys(self@.participants));
            lemma_create_participant(
                self@,
                *key,
                participant.name@,
                participant.email@,
                participant.phone_number@,
                participant.residence.0,
                participant.pass_code@,
                *transaction,
                *history_hash,
            );
        }
        let place = position(&self.participants, key);
        let mut history: Vec<Digest> = Vec::new();
        history.push(*transaction);
        let entry = ParticipantEntry {
            participant: Participant::from_transaction(key, participant, 1, history_hash),
            history,
            locations: Vec::new(),
        };
        let ghost target = old(self)@.create_participant(
            *key,
            participant.name@,
            participant.email@,
            participant.phone_number@,
            participant.residence.0,
            participant.pass_code@,
            *transaction,
            *history_hash,
        );
        assert(entry@.history =~= seq![*transaction]);
        assert(entry@ == target.participants[place as int]);
        self.participants.insert(place, entry);
        assert(self@.participants =~= target.participants);
    }

    /// Looks up the participant with the address `key`.
    pub fn participant(&self, key: &ParticipantAddress) -> (found: Option<&Participant>)
        requires
            self.wf(),
        ensures
            match found {
                Some(participant) => self@.has_participant(*key) && participant@
                    == self@.participant(*key).participant,
                None => !self@.has_participant(*key),
            },
    {
        match self.participant_index(key) {
            Some(i) => {
                proof {
                    lemma_find_participant(self@, *key);
                }
                Some(&self.participants[i].participant)
            },
            None => None,
        }
    }

    /// Looks up the administration with the address `key`.
    pub fn administration(&self, key: &AdministrationAddress) -> (found: Option<&Administration>)
        requires
            self.wf(),
        ensures
            match found {
                Some(administration) => self@.has_administration(*key) && administration@
                    == self@.administration(*key).administration,
                None => !self@.has_administration(*key),
            },
    {
        match self.administration_index(key) {
            Some(i) => {
                proof {
                    lemma_find_administration(self@, *key);
                }
                Some(&self.administrations[i].administration)
            },
            None => None,
        }
    }

    /// Looks up the index of the election with the address `id`.
    pub fn election_index(&self, id: ElectionAddress) -> (found: Option<usize>)
        ensures
            match found {
                Some(i) => self@.has_election(id as int) && i == id,
                None => !self@.has_election(id as int),
            },
    {
        if id >= 0 && (id as u64) < (self.elections.len() as u64) {
            Some(id as usize)
        } else {
            None
        }
    }

    /// Looks up the election with the address `id`.
    pub fn election(&self, id: ElectionAddress) -> (found: Option<&Election>)
        ensures
            match found {
                Some(election) => self@.has_election(id as int) && election@ == self@.election(
                    id as int,
                ).election,
                None => !self@.has_election(id as int),
            },
    {
        match self.election_index(id) {
            Some(i) => Some(&self.elections[i].election),
            None => None,
        }
    }

    /// The number of elections on the ledger, which is also the address that
    /// the next election gets.
    pub fn election_count(&self) -> (count: usize)
        ensures
            count == self@.next_election_address(),
    {
        self.elections.len()
    }

    /// Records that the participant `key` was found to be in `location` at
    /// `date`: the location joins the participant's location history, the
    /// transaction its log.
    pub fn submit_participant_location(
        &mut self,
        key: &ParticipantAddress,
        date: Timestamp,
        location: &AdministrationAddress,
        transaction: &Digest,
        history_hash: &Digest,
    )
        requires
            old(self).wf(),
            old(self)@.has_participant(*key),
            old(self)@.has_administration(*location),
        ensures
            final(self).wf(),
            final(self)@ == old(self)@.submit_participant_location(
                *key,
                date,
                *location,
                *transaction,
                *history_hash,
            ),
    {
        proof {
            lemma_find_participant(self@, *key);
            lemma_submit_participant_location(
                self@,
                *key,
                date,
                *location,
                *transaction,
                *history_hash,
            );
        }
        let ghost target = self@.submit_participant_location(
            *key,
            date,
            *location,
            *transaction,
            *history_hash,
        );
        let i = self.participant_index(key).unwrap();
        assert(self@.participant_wf(i as int));
        self.participants[i].locations.push(TimePositionInfo { time: date, location: *location });
        self.participants[i].history.push(*transaction);
        let history_len = self.participants[i].history.len() as u64;
        self.participants[i].participant.history_len = history_len;
        self.participants[i].participant.history_hash = *history_hash;
        assert(self.participants@[i as int]@ == target.participants[i as int]);
        assert(self@.participants =~= target.participants);
    }

    /// Records the administration that registers under `addr`, one level
    /// below its principal, or at level zero where it has none.
    pub fn create_administration(
        &mut self,
        addr: &AdministrationAddress,
        name: &str,
        principal: &OptionalContainer<AdministrationAddress>,
        area: &Polygon,
        transaction: &Digest,
        history_hash: &Digest,
    )
        requires
            old(self).wf(),
            !old(self)@.has_administration(*addr),
            principal.0 matches Some(p) ==> old(self)@.has_administration(p),
            old(self)@.level_under(principal.0) <= u32::MAX,
        ensures
            final(self).wf(),
            final(self)@ == old(self)@.create_administration(
                *addr,
                name@,
                principal.0,
                area@,
                *transaction,
                *history_hash,
            ),
    {
        proof {
            assert(keys_of(self.administrations@) =~= administration_keys(self@.administrations));
            lemma_create_administration(
                self@,
                *addr,
                name@,
                principal.0,
                area@,
                *transaction,
                *history_hash,
            );
        }
        let ghost target = self@.create_administration(
            *addr,
            name@,
            principal.0,
            area@,
            *transaction,
            *history_hash,
        );
        let administration_level: u32 = match principal.0 {
            Some(p) => {
                proof {
                    lemma_find_administration(self@, p);
                }
                let at = self.administration_index(&p).unwrap();
                self.administrations[at].administration.administration_level + 1
            },
            None => 0,
        };
        let place = position(&self.administrations, addr);
        let mut history: Vec<Digest> = Vec::new();
        history.push(*transaction);
        let entry = AdministrationEntry {
            administration: Administration::new(
                addr,
                name,
                &principal.0,
                area,
                administration_level,
                1,
                history_hash,
            ),
            history,
            elections: Vec::new(),
        };
        assert(entry@.history =~= seq![*transaction]);
        assert(entry@.elections =~= Seq::empty());
        assert(entry@ == target.administrations[place as int]);
        self.administrations.insert(place, entry);
        assert(self@.administrations =~= target.administrations);
    }

    /// Records a new election of the administration `author_key` under the
    /// next free address, and returns that address. The options are numbered
    /// from zero in the order of their titles.
    pub fn issue_election(
        &mut self,
        name: &str,
        author_key: &AdministrationAddress,
        start_date: &Timestamp,
        finish_date: &Timestamp,
        options: &Vec<String>,
        transaction: &Digest,
        history_hash: &Digest,
    ) -> (addr: ElectionAddress)
        requires
            old(self).wf(),
            old(self)@.has_administration(*author_key),
            start_date.precedes(*finish_date),
            options.len() <= i32::MAX,
            old(self)@.next_election_address() < i64::MAX,
        ensures
            final(self).wf(),
            addr == old(self)@.next_election_address(),
            final(self)@ == old(self)@.issue_election(
                *author_key,
                name@,
                *start_date,
                *finish_date,
                titles_view(options@),
                *transaction,
                *history_hash,
            ),
    {
        proof {
            lemma_find_administration(self@, *author_key);
            lemma_issue_election(
                self@,
                *author_key,
                name@,
                *start_date,
                *finish_date,
                titles_view(options@),
                *transaction,
                *history_hash,
            );
        }
        let ghost target = self@.issue_election(
            *author_key,
            name@,
            *start_date,
            *finish_date,
            titles_view(options@),
            *transaction,
            *history_hash,
        );
        let addr: i64 = self.elections.len() as i64;
        let at = self.administration_index(author_key).unwrap();
        let mut numbered: Vec<ElectionOption> = Vec::new();
        let mut i: usize = 0;
        while i < options.len()
            invariant
                i <= options.len() <= i32::MAX,
                numbered@.len() == i,
                forall|k: int|
                    0 <= k < i ==> (#[trigger] numbered@[k])@ == numbered_options(
                        titles_view(options@),
                    )[k],
            decreases options.len() - i,
        {
            numbered.push(ElectionOption { id: i as i32, title: options[i].clone() });
            i = i + 1;
        }
        let mut history: Vec<Digest> = Vec::new();
        history.push(*transaction);
        let entry = ElectionEntry {
            election: Election {
                addr,
                issuer: *author_key,
                name: name.to_owned(),
                is_cancelled: false,
                start_date: *start_date,
                finish_date: *finish_date,
                options: numbered,
                history_len: 1,
                history_hash: *history_hash,
            },
            history,
            votes: Vec::new(),
        };
        assert(entry@.election.options =~= numbered_options(titles_view(options@)));
        assert(entry@.history =~= seq![*transaction]);
        assert(entry@ == target.elections[addr as int]);
        self.elections.push(entry);
        self.administrations[at].elections.push(addr);
        assert(self.administrations@[at as int]@.elections =~= target.administrations[at as int].elections);
        assert(self.administrations@[at as int]@ == target.administrations[at as int]);
        assert(self@.administrations =~= target.administrations);
        assert(self@.elections =~= target.elections);
        addr
    }

    /// Records the vote of `participant_key` for `option_id` in the election
    /// `election_id`; the transaction joins the log of the election.
    pub fn vote(
        &mut self,
        election_id: ElectionAddress,
        participant_key: &ParticipantAddress,
        option_id: ElectionOptionAddress,
        transaction: &Digest,
        history_hash: &Digest,
    )
        requires
            old(self).wf(),
            old(self)@.has_election(election_id as int),
            !old(self)@.voted_yet(election_id as int, *participant_key),
            0 <= option_id < old(self)@.election(election_id as int).election.options.len(),
        ensures
            final(self).wf(),
            final(self)@ == old(self)@.vote(
                election_id as int,
                *participant_key,
                option_id,
                *transaction,
                *history_hash,
            ),
    {
        proof {
            lemma_vote(
                self@,
                election_id as int,
                *participant_key,
                option_id,
                *transaction,
                *history_hash,
            );
        }
        let ghost target = self@.vote(
            election_id as int,
            *participant_key,
            option_id,
            *transaction,
            *history_hash,
        );
        let i = self.election_index(election_id).unwrap();
        assert(self@.election_wf(i as int));
        assert(keys_of(self.elections@[i as int].votes@) =~= voters(
            self@.elections[i as int].votes,
        ));
        let place = position(&self.elections[i].votes, participant_key);
        self.elections[i].votes.insert(
            place,
            Ballot { voter: *participant_key, option_id },
        );
        self.elections[i].history.push(*transaction);
        let history_len = self.elections[i].history.len() as u64;
        self.elections[i].election.history_len = history_len;
        self.elections[i].election.history_hash = *history_hash;
        assert(self.elections@[i as int]@ == target.elections[i as int]);
        assert(self@.elections =~= target.elections);
    }

    /// Tells whether `address` has a vote on record in the election `election_addr`.
    pub fn voted_yet(&self, election_addr: ElectionAddress, address: &ParticipantAddress) -> (voted:
        bool)
        requires
            self.wf(),
        ensures
            voted == self@.voted_yet(election_addr as int, *address),
    {
        match self.election_index(election_addr) {
            Some(i) => {
                assert(self@.election_wf(i as int));
                let votes = &self.elections[i].votes;
                proof {
                    assert(keys_of(votes@) =~= voters(self@.elections[i as int].votes));
                    lemma_find_sound(voters(self@.elections[i as int].votes), *address);
                }
                let place = position(votes, address);
                place < votes.len() && votes[place].voter == *address
            },
            None => false,
        }
    }
}

/// The titles of a list of options, as sequences of characters.
pub open spec fn titles_view(titles: Seq<String>) -> Seq<Seq<char>> {
    Seq::new(titles.len(), |i: int| titles[i]@)
}

} // verus!
