//! The election service and its configuration.

use vstd::prelude::*;
use crate::error::QueryError;
use crate::model::time::Timestamp;
use crate::model::transactions::Config;
use crate::schema::ElectionSchema;

verus! {

/// The election service: it has no state of its own, the ledger is handed to
/// each of its operations.
#[derive(Clone, Copy, Debug)]
pub struct ElectionService;

/// What is known of one time oracle: the name under which it runs and the
/// time that it tells, once it tells one.
#[derive(Debug)]
pub struct TimeOracle {
    pub name: String,
    pub time: Option<Timestamp>,
}

/// The index of the first oracle that runs under `name`, if there is one.
pub open spec fn find_oracle(oracles: Seq<TimeOracle>, name: Seq<char>) -> Option<int>
    decreases oracles.len(),
{
    if oracles.len() == 0 {
        None
    } else {
        match find_oracle(oracles.drop_last(), name) {
            Some(i) => Some(i),
            None => if oracles.last().name@ == name {
                Some(oracles.len() - 1)
            } else {
                None
            },
        }
    }
}

/// `find_oracle` returns the first index with the name, and `None` only
/// where no oracle has it.
pub proof fn lemma_find_oracle(oracles: Seq<TimeOracle>, name: Seq<char>)
    ensures
        match find_oracle(oracles, name) {
            Some(i) => 0 <= i < oracles.len() && oracles[i].name@ == name && forall|j: int|
                0 <= j < i ==> (#[trigger] oracles[j]).name@ != name,
            None => forall|j: int| 0 <= j < oracles.len() ==> (#[trigger] oracles[j]).name@ != name,
        },
    decreases oracles.len(),
{
    if oracles.len() > 0 {
        let front = oracles.drop_last();
        lemma_find_oracle(front, name);
        match find_oracle(front, name) {
            Some(i) => {
                assert(front[i] == oracles[i]);
                assert forall|j: int| 0 <= j < i implies (#[trigger] oracles[j]).name@ != name by {
                    assert(front[j] == oracles[j]);
                }
            },
            None => {
                assert forall|j: int| 0 <= j < oracles.len() - 1 implies (
                #[trigger] oracles[j]).name@ != name by {
                    assert(front[j] == oracles[j]);
                }
            },
        }
    }
}

/// Looks for the oracle that runs under `name`.
pub fn lookup_oracle<'a>(oracles: &'a Vec<TimeOracle>, name: &String) -> (found: Option<
    &'a TimeOracle,
>)
    ensures
        match found {
            Some(oracle) => find_oracle(oracles@, name@) matches Some(i) && *oracle == oracles@[i],
            None => find_oracle(oracles@, name@) is None,
        },
{
    let mut i: usize = 0;
    while i < oracles.len()
        invariant
            i <= oracles.len(),
            forall|j: int| 0 <= j < i ==> (#[trigger] oracles@[j]).name@ != name@,
        decreases oracles.len() - i,
    {
        if oracles[i].name == *name {
            proof {
                lemma_find_oracle(oracles@, name@);
            }
            return Some(&oracles[i]);
        }
        i = i + 1;
    }
    proof {
        lemma_find_oracle(oracles@, name@);
    }
    None
}

/// Whether a time oracle runs under the name that `config` gives.
pub open spec fn config_valid(config: Config, oracles: Seq<TimeOracle>) -> bool {
    find_oracle(oracles, config.time_service_name@) is Some
}

/// Checks that a time oracle runs under the name that `config` gives.
pub fn verify_config(config: &Config, oracles: &Vec<TimeOracle>) -> (checked: Result<
    (),
    QueryError,
>)
    ensures
        match checked {
            Ok(()) => config_valid(*config, oracles@),
            Err(error) => error == QueryError::TimeServiceNotFound && !config_valid(
                *config,
                oracles@,
            ),
        },
{
    match lookup_oracle(oracles, &config.time_service_name) {
        Some(_) => Ok(()),
        None => Err(QueryError::TimeServiceNotFound),
    }
}

impl ElectionService {
    /// Starts the service: checks `config` and, if a time oracle runs under
    /// the name it gives, stores it in the ledger.
    pub fn initialize(
        &self,
        schema: &mut ElectionSchema,
        config: Config,
        oracles: &Vec<TimeOracle>,
    ) -> (started: Result<(), QueryError>)
        requires
            old(schema).wf(),
        ensures
            final(schema).wf(),
            match started {
                Ok(()) => config_valid(config, oracles@) && final(schema)@ == old(
                    schema,
                )@.configure(config.time_service_name@),
                Err(error) => error == QueryError::TimeServiceNotFound && !config_valid(
                    config,
                    oracles@,
                ) && final(schema)@ == old(schema)@,
            },
    {
        match verify_config(&config, oracles) {
            Ok(()) => {
                schema.set_config(config);
                Ok(())
            },
            Err(error) => Err(error),
        }
    }

    /// Checks that a time oracle runs under the name that `params` gives.
    pub fn verify_config(&self, params: &Config, oracles: &Vec<TimeOracle>) -> (checked: Result<
        (),
        QueryError,
    >)
        ensures
            match checked {
                Ok(()) => config_valid(*params, oracles@),
                Err(error) => error == QueryError::TimeServiceNotFound && !config_valid(
                    *params,
                    oracles@,
                ),
            },
    {
        verify_config(params, oracles)
    }

    /// Replaces the configuration of the ledger by `params`.
    pub fn apply_config(&self, schema: &mut ElectionSchema, params: Config)
        requires
            old(schema).wf(),
        ensures
            final(schema).wf(),
            final(schema)@ == old(schema)@.configure(params.time_service_name@),
    {
        schema.set_config(params);
    }
}

} // verus!
