//! The messages that change the ledger.

use vstd::prelude::*;
use crate::model::geo::{Coordinate, Polygon};
use crate::model::time::Timestamp;
use crate::model::wrappers::OptionalContainer;
use crate::model::{AdministrationAddress, ElectionAddress};

verus! {

/// Election configuration parameters.
#[derive(Debug)]
pub struct Config {
    /// Time oracle service name.
    pub time_service_name: String,
}

/// Registers the author as a participant.
#[derive(Debug)]
pub struct CreateParticipant {
    pub name: String,
    pub email: String,
    pub phone_number: String,
    pub residence: OptionalContainer<AdministrationAddress>,
    pub pass_code: String,
}

/// Registers the author as an administration.
#[derive(Debug)]
pub struct CreateAdministration {
    pub name: String,
    pub principal_key: OptionalContainer<AdministrationAddress>,
    pub area: Polygon,
}

/// Issues an election in the name of the authoring administration.
#[derive(Debug)]
pub struct IssueElection {
    pub name: String,
    pub start_date: Timestamp,
    pub finish_date: Timestamp,
    pub options: Vec<String>,
}

/// Casts the author's vote.
#[derive(Clone, Copy, Debug, PartialEq, Eq, Structural)]
pub struct Vote {
    pub election_id: ElectionAddress,
    pub option_id: i32,
    pub seed: u64,
}

/// Reports where the author is.
#[derive(Clone, Copy, Debug, PartialEq, Eq, Structural)]
pub struct SubmitLocation {
    pub position: Coordinate,
    pub date: Timestamp,
    pub seed: u64,
}

impl Clone for Config {
    fn clone(&self) -> (copy: Config)
        ensures
            copy.time_service_name@ == self.time_service_name@,
    {
        Config { time_service_name: self.time_service_name.clone() }
    }
}

impl Vote {
    /// A vote for `option_id` in `election_id`, told apart from equal votes by `seed`.
    pub fn new(election_id: ElectionAddress, option_id: i32, seed: u64) -> (vote: Vote)
        ensures
            vote == (Vote { election_id, option_id, seed }),
    {
        Vote { election_id, option_id, seed }
    }

    /// A vote for `option_id` in `election_id` with a seed drawn at random.
    pub fn seeded(election_id: ElectionAddress, option_id: i32) -> (vote: Vote)
        ensures
            vote.election_id == election_id,
            vote.option_id == option_id,
    {
        Vote::new(election_id, option_id, random_seed())
    }
}

/// Calls `rand::random::<u64>()`. Nothing is known of the number it returns.
#[verifier::external_body]
fn random_seed() -> (seed: u64) {
    rand::random::<u64>()
}

} // verus!
