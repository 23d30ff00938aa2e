//! Taking a ledger up again from its stored tables.

use vstd::prelude::*;
use crate::crypto::Address;
use crate::model::transactions::Config;
use crate::schema::table::{
    find, keys_of, lemma_find_sound, position, strictly_increasing, Keyed,
};
use crate::schema::view::{administration_keys, participant_keys, voters, SchemaView};
use crate::schema::{
    administrations_view, elections_view, participants_view, AdministrationEntry, ElectionEntry,
    ElectionSchema, ParticipantEntry,
};

verus! {

/// The ledger that the given tables would make.
pub open spec fn candidate(
    participants: Seq<ParticipantEntry>,
    administrations: Seq<AdministrationEntry>,
    elections: Seq<ElectionEntry>,
    config: Option<Config>,
) -> SchemaView {
    SchemaView {
        participants: participants_view(participants),
        administrations: administrations_view(administrations),
        elections: elections_view(elections),
        config: match config {
            Some(c) => Some(c.time_service_name@),
            None => None,
        },
    }
}

/// Tells whether the records come in strictly increasing order of their keys.
fn is_ordered<T: Keyed>(items: &Vec<T>) -> (ordered: bool)
    ensures
        ordered == strictly_increasing(keys_of(items@)),
{
    let ghost keys = keys_of(items@);
    let mut i: usize = 1;
    while i < items.len()
        invariant
            1 <= i,
            keys == keys_of(items@),
            forall|a: int, b: int| 0 <= a < b < i && b < keys.len() ==> keys[a].rank() < keys[b].rank(),
        decreases items.len() - i,
    {
        let before = items[i - 1].address();
        let here = items[i].address();
        assert(before == keys[i as int - 1] && here == keys[i as int]);
        if !before.lt(&here) {
            return false;
        }
        assert forall|a: int, b: int| 0 <= a < b < i + 1 && b < keys.len() implies keys[a].rank()
            < keys[b].rank() by {
            if b == i && a < i - 1 {
                assert(keys[a].rank() < keys[i as int - 1].rank());
            }
        }
        i = i + 1;
    }
    true
}

/// Looks up the index of the administration with the address `key` in an
/// ordered table.
fn index_in(administrations: &Vec<AdministrationEntry>, key: &Address) -> (found: Option<usize>)
    requires
        strictly_increasing(administration_keys(administrations_view(administrations@))),
    ensures
        match found {
            Some(i) => find(administration_keys(administrations_view(administrations@)), *key)
                == Some(i as int) && i < administrations@.len(),
            None => find(administration_keys(administrations_view(administrations@)), *key)
                is None,
        },
{
    proof {
        assert(keys_of(administrations@) =~= administration_keys(
            administrations_view(administrations@),
        ));
        lemma_find_sound(administration_keys(administrations_view(administrations@)), *key);
    }
    let place = position(administrations, key);
    if place < administrations.len() && administrations[place].administration.addr == *key {
        Some(place)
    } else {
        None
    }
}

/// Tells whether the list of election addresses is strictly increasing and
/// names only elections that `issuer` issued.
fn check_issued(
    list: &Vec<i64>,
    issuer: &Address,
    elections: &Vec<ElectionEntry>,
) -> (fits: bool)
    ensures
        fits == ((forall|k: int|
            0 <= k < list@.len() ==> 0 <= (#[trigger] list@[k]) < elections@.len()
                && elections@[list@[k] as int].election.issuer == *issuer) && forall|
            k: int,
            l: int,
        | 0 <= k < l < list@.len() ==> list@[k] < list@[l]),
{
    let mut k: usize = 0;
    while k < list.len()
        invariant
            k <= list.len(),
            forall|j: int|
                0 <= j < k ==> 0 <= (#[trigger] list@[j]) < elections@.len()
                    && elections@[list@[j] as int].election.issuer == *issuer,
            forall|a: int, b: int| 0 <= a < b < k ==> list@[a] < list@[b],
        decreases list.len() - k,
    {
        let id = list[k];
        if id < 0 || id as u64 >= elections.len() as u64 {
            return false;
        }
        if elections[id as usize].election.issuer != *issuer {
            return false;
        }
        if k > 0 && list[k - 1] >= id {
            assert(!(list@[k as int - 1] < list@[k as int]));
            return false;
        }
        assert forall|a: int, b: int| 0 <= a < b < k + 1 implies list@[a] < list@[b] by {
            if b == k && a < k - 1 {
                assert(list@[a] < list@[k as int - 1]);
            }
        }
        k = k + 1;
    }
    true
}

/// Tells whether the participant at index `i` is as a well-formed ledger
/// has it.
#[verifier::loop_isolation(false)]
fn check_participant(
    participants: &Vec<ParticipantEntry>,
    administrations: &Vec<AdministrationEntry>,
    elections: &Vec<ElectionEntry>,
    config: &Option<Config>,
    i: usize,
) -> (fits: bool)
    requires
        i < participants@.len(),
        strictly_increasing(administration_keys(administrations_view(administrations@))),
    ensures
        fits == candidate(participants@, administrations@, elections@, *config).participant_wf(
            i as int,
        ),
{
    let ghost s = candidate(participants@, administrations@, elections@, *config);
    let entry = &participants[i];
    assert(s.participants[i as int] == entry@);
    if entry.participant.history_len != entry.history.len() as u64 {
        return false;
    }
    let mut k: usize = 0;
    while k < entry.locations.len()
        invariant
            k <= entry.locations.len(),
            s == candidate(participants@, administrations@, elections@, *config),
            strictly_increasing(administration_keys(administrations_view(administrations@))),
            forall|j: int|
                0 <= j < k ==> s.has_administration((#[trigger] entry.locations@[j]).location),
        decreases entry.locations.len() - k,
    {
        if index_in(administrations, &entry.locations[k].location).is_none() {
            assert(s.administrations == administrations_view(administrations@));
            assert(s.participants[i as int].locations[k as int] == entry.locations@[k as int]);
            assert(!s.has_administration(s.participants[i as int].locations[k as int].location));
            return false;
        }
        k = k + 1;
    }
    true
}

/// Tells whether the administration at index `i` is as a well-formed ledger
/// has it.
fn check_administration(
    participants: &Vec<ParticipantEntry>,
    administrations: &Vec<AdministrationEntry>,
    elections: &Vec<ElectionEntry>,
    config: &Option<Config>,
    i: usize,
) -> (fits: bool)
    requires
        i < administrations@.len(),
        strictly_increasing(administration_keys(administrations_view(administrations@))),
    ensures
        fits == candidate(
            participants@,
            administrations@,
            elections@,
            *config,
        ).administration_wf(i as int),
{
    let ghost s = candidate(participants@, administrations@, elections@, *config);
    let entry = &administrations[i];
    assert(s.administrations[i as int] == entry@);
    if entry.administration.history_len != entry.history.len() as u64 {
        return false;
    }
    match entry.administration.principal_key.0 {
        Some(principal) => {
            match index_in(administrations, &principal) {
                Some(at) => {
                    assert(s.administrations[at as int] == administrations@[at as int]@);
                    let above = administrations[at].administration.administration_level;
                    if above == u32::MAX || above + 1
                        != entry.administration.administration_level {
                        return false;
                    }
                },
                None => {
                    return false;
                },
            }
        },
        None => {
            if entry.administration.administration_level != 0 {
                return false;
            }
        },
    }
    let fits = check_issued(&entry.elections, &entry.administration.addr, elections);
    proof {
        let listed = entry@.elections;
        assert(listed.len() == entry.elections@.len());
        assert forall|k: int| 0 <= k < listed.len() implies listed[k] == entry.elections@[k] as int by {}
        if fits {
            assert forall|k: int| 0 <= k < listed.len() implies s.has_election(
                #[trigger] listed[k],
            ) && s.election(listed[k]).election.issuer == entry@.administration.addr by {
                let id = entry.elections@[k];
                assert(0 <= id < elections@.len());
                assert(s.elections[id as int] == elections@[id as int]@);
            }
            assert forall|k: int, l: int| 0 <= k < l < listed.len() implies listed[k]
                < listed[l] by {
                assert(entry.elections@[k] < entry.elections@[l]);
            }
        } else {
            if forall|k: int|
                0 <= k < listed.len() ==> s.has_election(#[trigger] listed[k]) && s.election(
                    listed[k],
                ).election.issuer == entry@.administration.addr {
                assert forall|k: int| 0 <= k < entry.elections@.len() implies 0 <= (
                #[trigger] entry.elections@[k]) < elections@.len()
                    && elections@[entry.elections@[k] as int].election.issuer
                    == entry.administration.addr by {
                    assert(s.has_election(listed[k]));
                    let id = entry.elections@[k];
                    assert(s.elections[id as int] == elections@[id as int]@);
                }
                let (k, l) = choose|k: int, l: int|
                    0 <= k < l < entry.elections@.len() && !(entry.elections@[k]
                        < entry.elections@[l]);
                assert(!(listed[k] < listed[l]));
            }
        }
    }
    fits
}

/// Tells whether `id` is in the strictly increasing list.
fn lists(list: &Vec<i64>, id: i64) -> (listed: bool)
    ensures
        listed == exists|k: int| 0 <= k < list@.len() && list@[k] == id,
{
    let mut k: usize = 0;
    while k < list.len()
        invariant
            k <= list.len(),
            forall|j: int| 0 <= j < k ==> list@[j] != id,
        decreases list.len() - k,
    {
        if list[k] == id {
            return true;
        }
        k = k + 1;
    }
    false
}

/// Tells whether the election at index `i` is as a well-formed ledger has it.
#[verifier::loop_isolation(false)]
fn check_election(
    participants: &Vec<ParticipantEntry>,
    administrations: &Vec<AdministrationEntry>,
    elections: &Vec<ElectionEntry>,
    config: &Option<Config>,
    i: usize,
) -> (fits: bool)
    requires
        i < elections@.len(),
        strictly_increasing(administration_keys(administrations_view(administrations@))),
    ensures
        fits == candidate(participants@, administrations@, elections@, *config).election_wf(
            i as int,
        ),
{
    let ghost s = candidate(participants@, administrations@, elections@, *config);
    let entry = &elections[i];
    assert(s.elections[i as int] == entry@);
    let election = &entry.election;
    if election.addr < 0 || election.addr as u64 != i as u64 {
        return false;
    }
    if election.history_len != entry.history.len() as u64 || election.is_cancelled
        || !election.start_date.is_before(&election.finish_date) {
        return false;
    }
    assert(entry@.election.options.len() == election.options@.len());
    let mut k: usize = 0;
    while k < election.options.len()
        invariant
            k <= election.options.len(),
            entry@.election.options.len() == election.options@.len(),
            forall|j: int| 0 <= j < k ==> (#[trigger] entry@.election.options[j]).id == j,
        decreases election.options.len() - k,
    {
        let id = election.options[k].id;
        assert(entry@.election.options[k as int] == election.options@[k as int]@);
        if id < 0 || id as u64 != k as u64 {
            return false;
        }
        k = k + 1;
    }
    match index_in(administrations, &election.issuer) {
        Some(at) => {
            assert(s.administrations[at as int] == administrations@[at as int]@);
            let listed = lists(&administrations[at].elections, election.addr);
            proof {
                let list = administrations@[at as int].elections@;
                let shown = s.administrations[at as int].elections;
                if listed {
                    let w = choose|w: int| 0 <= w < list.len() && list[w] == election.addr;
                    assert(shown[w] == i);
                } else {
                    if shown.contains(i as int) {
                        let w = choose|w: int| 0 <= w < shown.len() && shown[w] == i as int;
                        assert(list[w] == election.addr);
                    }
                }
            }
            if !listed {
                return false;
            }
        },
        None => {
            return false;
        },
    }
    proof {
        assert(keys_of(entry.votes@) =~= voters(entry@.votes));
    }
    if !is_ordered(&entry.votes) {
        return false;
    }
    let size = election.options.len();
    let mut v: usize = 0;
    while v < entry.votes.len()
        invariant
            v <= entry.votes.len(),
            size == entry@.election.options.len(),
            forall|j: int| 0 <= j < v ==> 0 <= (#[trigger] entry@.votes[j]).option_id < size,
        decreases entry.votes.len() - v,
    {
        let chosen = entry.votes[v].option_id;
        if chosen < 0 || chosen as u64 >= size as u64 {
            assert(!(0 <= entry@.votes[v as int].option_id < size));
            return false;
        }
        v = v + 1;
    }
    true
}

impl ElectionSchema {
    /// Takes a ledger up again from its three tables and its configuration.
    /// Returns `None` where the tables are not those of a well-formed ledger:
    /// where a table is not in the order of its addresses, or some record
    /// does not fit the others.
    pub fn restore(
        participants: Vec<ParticipantEntry>,
        administrations: Vec<AdministrationEntry>,
        elections: Vec<ElectionEntry>,
        config: Option<Config>,
    ) -> (restored: Option<ElectionSchema>)
        ensures
            match restored {
                Some(schema) => schema.wf() && schema@ == candidate(
                    participants@,
                    administrations@,
                    elections@,
                    config,
                ),
                None => !candidate(participants@, administrations@, elections@, config).wf(),
            },
    {
        let ghost s = candidate(participants@, administrations@, elections@, config);
        proof {
            assert(keys_of(participants@) =~= participant_keys(s.participants));
            assert(keys_of(administrations@) =~= administration_keys(s.administrations));
        }
        if !is_ordered(&participants) || !is_ordered(&administrations) {
            return None;
        }
        let mut i: usize = 0;
        while i < participants.len()
            invariant
                i <= participants.len(),
                s == candidate(participants@, administrations@, elections@, config),
                strictly_increasing(administration_keys(administrations_view(administrations@))),
                forall|j: int| 0 <= j < i ==> #[trigger] s.participant_wf(j),
            decreases participants.len() - i,
        {
            if !check_participant(&participants, &administrations, &elections, &config, i) {
                return None;
            }
            i = i + 1;
        }
        let mut i: usize = 0;
        while i < administrations.len()
            invariant
                i <= administrations.len(),
                s == candidate(participants@, administrations@, elections@, config),
                strictly_increasing(administration_keys(administrations_view(administrations@))),
                forall|j: int| 0 <= j < i ==> #[trigger] s.administration_wf(j),
            decreases administrations.len() - i,
        {
            if !check_administration(&participants, &administrations, &elections, &config, i) {
                return None;
            }
            i = i + 1;
        }
        let mut i: usize = 0;
        while i < elections.len()
            invariant
                i <= elections.len(),
                s == candidate(participants@, administrations@, elections@, config),
                strictly_increasing(administration_keys(administrations_view(administrations@))),
                forall|j: int| 0 <= j < i ==> #[trigger] s.election_wf(j),
            decreases elections.len() - i,
        {
            if !check_election(&participants, &administrations, &elections, &config, i) {
                return None;
            }
            i = i + 1;
        }
        Some(ElectionSchema::assemble(participants, administrations, elections, config))
    }
}

} // verus!
