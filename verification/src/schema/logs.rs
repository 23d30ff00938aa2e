//! The logs that the ledger keeps beside its records.

use vstd::prelude::*;
use crate::crypto::Digest;
use crate::model::{AdministrationAddress, ElectionAddress, ParticipantAddress};
use crate::schema::lemmas::{lemma_find_administration, lemma_find_participant};
use crate::schema::view::{Ballot, SchemaView, TimePositionInfo};
use crate::schema::ElectionSchema;

verus! {

/// Copies a list of plain values.
pub fn copy_list<T: Copy>(list: &Vec<T>) -> (copy: Vec<T>)
    ensures
        copy@ == list@,
{
    let mut copy: Vec<T> = Vec::new();
    let mut i: usize = 0;
    while i < list.len()
        invariant
            i <= list.len(),
            copy@ == list@.subrange(0, i as int),
        decreases list.len() - i,
    {
        copy.push(list[i]);
        i = i + 1;
    }
    assert(list@.subrange(0, i as int) =~= list@);
    copy
}

impl SchemaView {
    /// The log of the participant `key`; empty where there is no such participant.
    pub open spec fn participant_history(self, key: ParticipantAddress) -> Seq<Digest> {
        if self.has_participant(key) {
            self.participant(key).history
        } else {
            Seq::empty()
        }
    }

    /// The location history of the participant `key`; empty where there is
    /// no such participant.
    pub open spec fn participant_location_history(self, key: ParticipantAddress) -> Seq<
        TimePositionInfo,
    > {
        if self.has_participant(key) {
            self.participant(key).locations
        } else {
            Seq::empty()
        }
    }

    /// The log of the administration `key`; empty where there is no such
    /// administration.
    pub open spec fn administration_history(self, key: AdministrationAddress) -> Seq<Digest> {
        if self.has_administration(key) {
            self.administration(key).history
        } else {
            Seq::empty()
        }
    }

    /// The log of the election `id`; empty where there is no such election.
    pub open spec fn election_history(self, id: int) -> Seq<Digest> {
        if self.has_election(id) {
            self.election(id).history
        } else {
            Seq::empty()
        }
    }

    /// The votes of the election `id`, ordered by voter; empty where there is
    /// no such election.
    pub open spec fn election_votes(self, id: int) -> Seq<Ballot> {
        if self.has_election(id) {
            self.election(id).votes
        } else {
            Seq::empty()
        }
    }
}

impl ElectionSchema {
    /// The hashes from which the root of the whole ledger is computed: those
    /// of the tables of participants, of administrations and of elections,
    /// in this order.
    pub fn state_hash(
        &self,
        participants: &Digest,
        administrations: &Digest,
        elections: &Digest,
    ) -> (hashes: Vec<Digest>)
        ensures
            hashes@ == seq![*participants, *administrations, *elections],
    {
        let mut hashes: Vec<Digest> = Vec::new();
        hashes.push(*participants);
        hashes.push(*administrations);
        hashes.push(*elections);
        assert(hashes@ =~= seq![*participants, *administrations, *elections]);
        hashes
    }

    /// The hashes of the transactions that changed the participant `pub_key`,
    /// oldest first; empty where there is no such participant.
    pub fn participant_history(&self, pub_key: &ParticipantAddress) -> (history: Vec<Digest>)
        requires
            self.wf(),
        ensures
            history@ == self@.participant_history(*pub_key),
    {
        match self.participant_index(pub_key) {
            Some(i) => {
                proof {
                    lemma_find_participant(self@, *pub_key);
                }
                let entries = self.participants();
                assert(entries@[i as int]@ == self@.participants[i as int]);
                copy_list(&entries[i].history)
            },
            None => Vec::new(),
        }
    }

    /// The locations that the participant `key` submitted, oldest first; empty
    /// where there is no such participant.
    pub fn participant_location_history(&self, key: &ParticipantAddress) -> (history: Vec<
        TimePositionInfo,
    >)
        requires
            self.wf(),
        ensures
            history@ == self@.participant_location_history(*key),
    {
        match self.participant_index(key) {
            Some(i) => {
                proof {
                    lemma_find_participant(self@, *key);
                }
                let entries = self.participants();
                assert(entries@[i as int]@ == self@.participants[i as int]);
                copy_list(&entries[i].locations)
            },
            None => Vec::new(),
        }
    }

    /// The hashes of the transactions that changed the administration
    /// `pub_key`, oldest first; empty where there is no such administration.
    pub fn administration_history(&self, pub_key: &AdministrationAddress) -> (history: Vec<Digest>)
        requires
            self.wf(),
        ensures
            history@ == self@.administration_history(*pub_key),
    {
        match self.administration_index(pub_key) {
            Some(i) => {
                proof {
                    lemma_find_administration(self@, *pub_key);
                }
                let entries = self.administrations();
                assert(entries@[i as int]@ == self@.administrations[i as int]);
                copy_list(&entries[i].history)
            },
            None => Vec::new(),
        }
    }

    /// The hashes of the transactions that changed the election `id`, oldest
    /// first; empty where there is no such election.
    pub fn election_history(&self, id: ElectionAddress) -> (history: Vec<Digest>)
        ensures
            history@ == self@.election_history(id as int),
    {
        match self.election_index(id) {
            Some(i) => {
                let entries = self.elections();
                assert(entries@[i as int]@ == self@.elections[i as int]);
                copy_list(&entries[i].history)
            },
            None => Vec::new(),
        }
    }

    /// The votes of the election `election_id`, ordered by voter; empty where
    /// there is no such election.
    pub fn election_votes(&self, election_id: ElectionAddress) -> (votes: Vec<Ballot>)
        ensures
            votes@ == self@.election_votes(election_id as int),
    {
        match self.election_index(election_id) {
            Some(i) => {
                let entries = self.elections();
                assert(entries@[i as int]@ == self@.elections[i as int]);
                copy_list(&entries[i].votes)
            },
            None => Vec::new(),
        }
    }

    /// The addresses of the elections that the administration `addr` issued
    /// itself, oldest first; `None` where there is no such administration.
    pub fn election_ids_of_administration(&self, addr: &AdministrationAddress) -> (ids: Option<
        Vec<ElectionAddress>,
    >)
        requires
            self.wf(),
        ensures
            match ids {
                Some(list) => self@.has_administration(*addr) && list@.len()
                    == self@.administration(*addr).elections.len() && forall|k: int|
                    0 <= k < list@.len() ==> #[trigger] list@[k] == self@.administration(
                        *addr,
                    ).elections[k],
                None => !self@.has_administration(*addr),
            },
    {
        match self.administration_index(addr) {
            Some(i) => {
                proof {
                    lemma_find_administration(self@, *addr);
                }
                let entries = self.administrations();
                assert(entries@[i as int]@ == self@.administrations[i as int]);
                let list = copy_list(&entries[i].elections);
                assert forall|k: int| 0 <= k < list@.len() implies #[trigger] list@[k]
                    == self@.administration(*addr).elections[k] by {
                    assert(entries@[i as int]@.elections[k] == entries@[i as int].elections@[k]);
                }
                Some(list)
            },
            None => None,
        }
    }
}

} // verus!
