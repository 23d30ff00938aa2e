//! Read-only access to one table of the ledger at a time.

use vstd::prelude::*;
use crate::model::{
    Administration, AdministrationAddress, Election, ElectionAddress, Participant,
    ParticipantAddress,
};
use crate::schema::ElectionSchema;

verus! {

/// A table from which records are read by key.
pub trait Repository<K, V> {
    /// The table can be read.
    spec fn readable(&self) -> bool;

    /// The table holds a record under `key`.
    spec fn holds(&self, key: K) -> bool;

    /// Tells whether the table holds a record under `key`.
    fn has(&self, key: &K) -> (found: bool)
        requires
            self.readable(),
        ensures
            found == self.holds(*key),
    ;

    /// A copy of the record under `key`, if the table holds one.
    fn get(&self, key: &K) -> (found: Option<V>)
        requires
            self.readable(),
        ensures
            found is Some == self.holds(*key),
    ;

    /// A copy of the record under `key`, which the table must hold.
    fn require(&self, key: &K) -> (found: V)
        requires
            self.readable(),
            self.holds(*key),
    ;
}

/// The table of participants of a ledger.
#[derive(Debug)]
pub struct ParticipantRepository<'a> {
    pub schema: &'a ElectionSchema,
}

/// The table of administrations of a ledger.
#[derive(Debug)]
pub struct AdministrationRepository<'a> {
    pub schema: &'a ElectionSchema,
}

/// The table of elections of a ledger.
#[derive(Debug)]
pub struct ElectionRepository<'a> {
    pub schema: &'a ElectionSchema,
}

impl<'a> Repository<ParticipantAddress, Participant> for ParticipantRepository<'a> {
    open spec fn readable(&self) -> bool {
        self.schema.wf()
    }

    open spec fn holds(&self, key: ParticipantAddress) -> bool {
        self.schema@.has_participant(key)
    }

    fn has(&self, key: &ParticipantAddress) -> (found: bool) {
        self.schema.participant(key).is_some()
    }

    fn get(&self, key: &ParticipantAddress) -> (found: Option<Participant>)
        ensures
            found matches Some(record) ==> record@ == self.schema@.participant(*key).participant,
    {
        match self.schema.participant(key) {
            Some(record) => Some(record.clone()),
            None => None,
        }
    }

    fn require(&self, key: &ParticipantAddress) -> (found: Participant)
        ensures
            found@ == self.schema@.participant(*key).participant,
    {
        self.schema.participant(key).unwrap().clone()
    }
}

impl<'a> Repository<AdministrationAddress, Administration> for AdministrationRepository<'a> {
    open spec fn readable(&self) -> bool {
        self.schema.wf()
    }

    open spec fn holds(&self, key: AdministrationAddress) -> bool {
        self.schema@.has_administration(key)
    }

    fn has(&self, key: &AdministrationAddress) -> (found: bool) {
        self.schema.administration(key).is_some()
    }

    fn get(&self, key: &AdministrationAddress) -> (found: Option<Administration>)
        ensures
            found matches Some(record) ==> record@ == self.schema@.administration(
                *key,
            ).administration,
    {
        match self.schema.administration(key) {
            Some(record) => Some(record.clone()),
            None => None,
        }
    }

    fn require(&self, key: &AdministrationAddress) -> (found: Administration)
        ensures
            found@ == self.schema@.administration(*key).administration,
    {
        self.schema.administration(key).unwrap().clone()
    }
}

impl<'a> Repository<ElectionAddress, Election> for ElectionRepository<'a> {
    open spec fn readable(&self) -> bool {
        self.schema.wf()
    }

    open spec fn holds(&self, key: ElectionAddress) -> bool {
        self.schema@.has_election(key as int)
    }

    fn has(&self, key: &ElectionAddress) -> (found: bool) {
        self.schema.election(*key).is_some()
    }

    fn get(&self, key: &ElectionAddress) -> (found: Option<Election>)
        ensures
            found matches Some(record) ==> record@ == self.schema@.election(*key as int).election,
    {
        match self.schema.election(*key) {
            Some(record) => Some(record.clone()),
            None => None,
        }
    }

    fn require(&self, key: &ElectionAddress) -> (found: Election)
        ensures
            found@ == self.schema@.election(*key as int).election,
    {
        self.schema.election(*key).unwrap().clone()
    }
}

impl ElectionSchema {
    /// The table of participants.
    pub fn participant_repository(&self) -> (repository: ParticipantRepository<'_>)
        ensures
            repository.schema == self,
    {
        ParticipantRepository { schema: self }
    }

    /// The table of administrations.
    pub fn administration_repository(&self) -> (repository: AdministrationRepository<'_>)
        ensures
            repository.schema == self,
    {
        AdministrationRepository { schema: self }
    }

    /// The table of elections.
    pub fn election_repository(&self) -> (repository: ElectionRepository<'_>)
        ensures
            repository.schema == self,
    {
        ElectionRepository { schema: self }
    }
}

} // verus!
