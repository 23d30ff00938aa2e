//! Every change of the ledger keeps it well formed.

use vstd::prelude::*;
use crate::crypto::Digest;
use crate::model::geo::PolygonView;
use crate::model::time::Timestamp;
use crate::model::{AdministrationAddress, ElectionOptionAddress, ParticipantAddress};
use crate::schema::table::{
    find, lemma_find_index, lemma_find_sound, lemma_insert_keeps_order, lemma_lower_bound_splits,
    lower_bound, moved,
};
use crate::schema::view::{
    administration_keys, participant_keys, voters, AdministrationEntryView, Ballot,
    ParticipantEntryView, SchemaView,
};

verus! {

/// The keys of a participant table after an entry went in at `place`.
pub proof fn lemma_participant_keys_insert(
    entries: Seq<ParticipantEntryView>,
    place: int,
    entry: ParticipantEntryView,
)
    requires
        0 <= place <= entries.len(),
    ensures
        participant_keys(entries.insert(place, entry)) == participant_keys(entries).insert(
            place,
            entry.participant.addr,
        ),
{
    assert(participant_keys(entries.insert(place, entry)) =~= participant_keys(entries).insert(
        place,
        entry.participant.addr,
    ));
}

/// The keys of a participant table do not change when an entry is replaced
/// by one with the same address.
pub proof fn lemma_participant_keys_update(
    entries: Seq<ParticipantEntryView>,
    i: int,
    entry: ParticipantEntryView,
)
    requires
        0 <= i < entries.len(),
        entry.participant.addr == entries[i].participant.addr,
    ensures
        participant_keys(entries.update(i, entry)) == participant_keys(entries),
{
    assert(participant_keys(entries.update(i, entry)) =~= participant_keys(entries));
}

/// The keys of an administration table after an entry went in at `place`.
pub proof fn lemma_administration_keys_insert(
    entries: Seq<AdministrationEntryView>,
    place: int,
    entry: AdministrationEntryView,
)
    requires
        0 <= place <= entries.len(),
    ensures
        administration_keys(entries.insert(place, entry)) == administration_keys(entries).insert(
            place,
            entry.administration.addr,
        ),
{
    assert(administration_keys(entries.insert(place, entry)) =~= administration_keys(
        entries,
    ).insert(place, entry.administration.addr));
}

/// The keys of an administration table do not change when an entry is
/// replaced by one with the same address.
pub proof fn lemma_administration_keys_update(
    entries: Seq<AdministrationEntryView>,
    i: int,
    entry: AdministrationEntryView,
)
    requires
        0 <= i < entries.len(),
        entry.administration.addr == entries[i].administration.addr,
    ensures
        administration_keys(entries.update(i, entry)) == administration_keys(entries),
{
    assert(administration_keys(entries.update(i, entry)) =~= administration_keys(entries));
}

/// The voters of a list of votes after a vote went in at `place`.
pub proof fn lemma_voters_insert(votes: Seq<Ballot>, place: int, ballot: Ballot)
    requires
        0 <= place <= votes.len(),
    ensures
        voters(votes.insert(place, ballot)) == voters(votes).insert(place, ballot.voter),
{
    assert(voters(votes.insert(place, ballot)) =~= voters(votes).insert(place, ballot.voter));
}

/// On a well-formed ledger a participant that is found stands at a valid index
/// under its own address, and one that is not found stands nowhere.
pub proof fn lemma_find_participant(s: SchemaView, key: ParticipantAddress)
    requires
        s.wf(),
    ensures
        match s.find_participant(key) {
            Some(i) => 0 <= i < s.participants.len() && s.participants[i].participant.addr
                == key && s.participant_wf(i),
            None => forall|i: int|
                0 <= i < s.participants.len() ==> (#[trigger] s.participants[i]).participant.addr
                    != key,
        },
{
    let keys = participant_keys(s.participants);
    lemma_find_sound(keys, key);
    if s.find_participant(key) is None {
        assert forall|i: int| 0 <= i < s.participants.len() implies (
        #[trigger] s.participants[i]).participant.addr != key by {
            assert(keys[i] == s.participants[i].participant.addr);
        }
    }
}

/// On a well-formed ledger an administration that is found stands at a valid
/// index under its own address, and one that is not found stands nowhere.
pub proof fn lemma_find_administration(s: SchemaView, key: AdministrationAddress)
    requires
        s.wf(),
    ensures
        match s.find_administration(key) {
            Some(i) => 0 <= i < s.administrations.len()
                && s.administrations[i].administration.addr == key && s.administration_wf(i),
            None => forall|i: int|
                0 <= i < s.administrations.len() ==> (
                #[trigger] s.administrations[i]).administration.addr != key,
        },
{
    let keys = administration_keys(s.administrations);
    lemma_find_sound(keys, key);
    if s.find_administration(key) is None {
        assert forall|i: int| 0 <= i < s.administrations.len() implies (
        #[trigger] s.administrations[i]).administration.addr != key by {
            assert(keys[i] == s.administrations[i].administration.addr);
        }
    }
}

/// On a well-formed ledger the administration at index `i` is found at `i`.
pub proof fn lemma_administration_at(s: SchemaView, i: int)
    requires
        s.wf(),
        0 <= i < s.administrations.len(),
    ensures
        s.find_administration(s.administrations[i].administration.addr) == Some(i),
        s.administration(s.administrations[i].administration.addr) == s.administrations[i],
{
    let keys = administration_keys(s.administrations);
    lemma_find_index(keys, i);
}

/// Registering a participant under an unused address keeps the ledger well
/// formed, files the new entry under that address and moves no other entry
/// out of reach.
pub proof fn lemma_create_participant(
    s: SchemaView,
    key: ParticipantAddress,
    name: Seq<char>,
    email: Seq<char>,
    phone_number: Seq<char>,
    residence: Option<AdministrationAddress>,
    pass_code: Seq<char>,
    transaction: Digest,
    history_hash: Digest,
)
    requires
        s.wf(),
        !s.has_participant(key),
    ensures
        ({
            let t = s.create_participant(
                key,
                name,
                email,
                phone_number,
                residence,
                pass_code,
                transaction,
                history_hash,
            );
            let place = lower_bound(participant_keys(s.participants), key);
            &&& t.wf()
            &&& 0 <= place <= s.participants.len()
            &&& t.find_participant(key) == Some(place)
            &&& forall|other: ParticipantAddress|
                other != key ==> #[trigger] t.find_participant(other) == match s.find_participant(
                    other,
                ) {
                    Some(i) => Some(moved(place, i)),
                    None => None,
                }
        }),
{
    let t = s.create_participant(
        key,
        name,
        email,
        phone_number,
        residence,
        pass_code,
        transaction,
        history_hash,
    );
    let keys = participant_keys(s.participants);
    let place = lower_bound(keys, key);
    lemma_insert_keeps_order(keys, key);
    lemma_lower_bound_splits(keys, key);
    lemma_participant_keys_insert(s.participants, place, t.participants[place]);
    assert forall|i: int| 0 <= i < t.participants.len() implies #[trigger] t.participant_wf(i) by {
        if i < place {
            assert(t.participants[i] == s.participants[i]);
            assert(s.participant_wf(i));
        } else if i > place {
            assert(t.participants[i] == s.participants[i - 1]);
            assert(s.participant_wf(i - 1));
        }
    }
    assert forall|i: int| 0 <= i < t.administrations.len() implies #[trigger] t.administration_wf(
        i,
    ) by {
        assert(s.administration_wf(i));
    }
    assert forall|i: int| 0 <= i < t.elections.len() implies #[trigger] t.election_wf(i) by {
        assert(s.election_wf(i));
    }
}

/// Recording a location of a known participant, in a known administration,
/// keeps the ledger well formed and leaves every entry where it was.
pub proof fn lemma_submit_participant_location(
    s: SchemaView,
    key: ParticipantAddress,
    time: Timestamp,
    location: AdministrationAddress,
    transaction: Digest,
    history_hash: Digest,
)
    requires
        s.wf(),
        s.has_participant(key),
        s.has_administration(location),
    ensures
        ({
            let t = s.submit_participant_location(key, time, location, transaction, history_hash);
            &&& t.wf()
            &&& participant_keys(t.participants) == participant_keys(s.participants)
        }),
{
    let t = s.submit_participant_location(key, time, location, transaction, history_hash);
    lemma_find_participant(s, key);
    let at = s.find_participant(key).unwrap();
    lemma_participant_keys_update(s.participants, at, t.participants[at]);
    assert forall|i: int| 0 <= i < t.participants.len() implies #[trigger] t.participant_wf(i) by {
        assert(s.participant_wf(i));
        if i == at {
            let old = s.participants[i];
            let new = t.participants[i];
            assert forall|k: int| 0 <= k < new.locations.len() implies t.has_administration(
                (#[trigger] new.locations[k]).location,
            ) by {
                if k < old.locations.len() {
                    assert(new.locations[k] == old.locations[k]);
                }
            }
        }
    }
    assert forall|i: int| 0 <= i < t.administrations.len() implies #[trigger] t.administration_wf(
        i,
    ) by {
        assert(s.administration_wf(i));
    }
    assert forall|i: int| 0 <= i < t.elections.len() implies #[trigger] t.election_wf(i) by {
        assert(s.election_wf(i));
    }
}

/// Registering an administration under an unused address, below a principal
/// that is on the ledger or below none, keeps the ledger well formed, files
/// the new entry under that address and moves no other entry out of reach.
pub proof fn lemma_create_administration(
    s: SchemaView,
    key: AdministrationAddress,
    name: Seq<char>,
    principal: Option<AdministrationAddress>,
    area: PolygonView,
    transaction: Digest,
    history_hash: Digest,
)
    requires
        s.wf(),
        !s.has_administration(key),
        principal matches Some(p) ==> s.has_administration(p),
    ensures
        ({
            let t = s.create_administration(
                key,
                name,
                principal,
                area,
                transaction,
                history_hash,
            );
            let place = lower_bound(administration_keys(s.administrations), key);
            &&& t.wf()
            &&& 0 <= place <= s.administrations.len()
            &&& t.find_administration(key) == Some(place)
            &&& forall|other: AdministrationAddress|
                other != key ==> #[trigger] t.find_administration(other)
                    == match s.find_administration(other) {
                    Some(i) => Some(moved(place, i)),
                    None => None,
                }
            &&& forall|other: AdministrationAddress|
                s.has_administration(other) ==> t.has_administration(other) && #[trigger] t.administration(other)
                    == s.administration(other)
        }),
{
    let t = s.create_administration(key, name, principal, area, transaction, history_hash);
    let keys = administration_keys(s.administrations);
    let place = lower_bound(keys, key);
    lemma_insert_keeps_order(keys, key);
    lemma_lower_bound_splits(keys, key);
    lemma_administration_keys_insert(s.administrations, place, t.administrations[place]);
    assert forall|other: AdministrationAddress| s.has_administration(other) implies t.has_administration(other)
        && #[trigger] t.administration(other) == s.administration(other) by {
        lemma_find_administration(s, other);
        assert(other != key);
        let i = s.find_administration(other).unwrap();
        assert(t.find_administration(other) == Some(moved(place, i)));
        assert(t.administrations[moved(place, i)] == s.administrations[i]);
    }
    assert forall|i: int| 0 <= i < t.participants.len() implies #[trigger] t.participant_wf(i) by {
        assert(s.participant_wf(i));
        let entry = s.participants[i];
        assert forall|k: int| 0 <= k < entry.locations.len() implies t.has_administration(
            (#[trigger] entry.locations[k]).location,
        ) by {
            assert(s.has_administration(entry.locations[k].location));
            assert(t.administration(entry.locations[k].location) == s.administration(
                entry.locations[k].location,
            ));
        }
    }
    assert forall|i: int| 0 <= i < t.administrations.len() implies #[trigger] t.administration_wf(
        i,
    ) by {
        if i == place {
            match principal {
                Some(p) => {
                    assert(t.administration(p) == s.administration(p));
                },
                None => {},
            }
        } else {
            let j = if i < place {
                i
            } else {
                i - 1
            };
            assert(t.administrations[i] == s.administrations[j]);
            assert(s.administration_wf(j));
            let entry = s.administrations[j];
            match entry.administration.principal_key {
                Some(p) => {
                    assert(t.administration(p) == s.administration(p));
                },
                None => {},
            }
        }
    }
    assert forall|i: int| 0 <= i < t.elections.len() implies #[trigger] t.election_wf(i) by {
        assert(s.election_wf(i));
        let issuer = s.elections[i].election.issuer;
        assert(t.administration(issuer) == s.administration(issuer));
    }
}

/// Issuing an election in the name of a known administration, to start before
/// it finishes, keeps the ledger well formed and leaves every administration
/// under its address.
pub proof fn lemma_issue_election(
    s: SchemaView,
    issuer: AdministrationAddress,
    name: Seq<char>,
    start_date: Timestamp,
    finish_date: Timestamp,
    titles: Seq<Seq<char>>,
    transaction: Digest,
    history_hash: Digest,
)
    requires
        s.wf(),
        s.has_administration(issuer),
        start_date.precedes(finish_date),
    ensures
        ({
            let t = s.issue_election(
                issuer,
                name,
                start_date,
                finish_date,
                titles,
                transaction,
                history_hash,
            );
            &&& t.wf()
            &&& administration_keys(t.administrations) == administration_keys(s.administrations)
        }),
{
    let t = s.issue_election(
        issuer,
        name,
        start_date,
        finish_date,
        titles,
        transaction,
        history_hash,
    );
    lemma_find_administration(s, issuer);
    let at = s.find_administration(issuer).unwrap();
    let next = s.next_election_address();
    lemma_administration_keys_update(s.administrations, at, t.administrations[at]);
    assert forall|i: int| 0 <= i < t.participants.len() implies #[trigger] t.participant_wf(i) by {
        assert(s.participant_wf(i));
    }
    assert forall|i: int| 0 <= i < t.administrations.len() implies #[trigger] t.administration_wf(
        i,
    ) by {
        assert(s.administration_wf(i));
        let old = s.administrations[i];
        let new = t.administrations[i];
        match old.administration.principal_key {
            Some(p) => {
                lemma_find_administration(s, p);
                assert(t.administration(p).administration == s.administration(p).administration);
            },
            None => {},
        }
        assert forall|k: int| 0 <= k < new.elections.len() implies t.has_election(
            #[trigger] new.elections[k],
        ) && t.election(new.elections[k]).election.issuer == new.administration.addr by {
            if k < old.elections.len() {
                assert(new.elections[k] == old.elections[k]);
                assert(s.has_election(old.elections[k]));
                assert(t.elections[old.elections[k]] == s.elections[old.elections[k]]);
            }
        }
        assert forall|k: int, l: int| 0 <= k < l < new.elections.len() implies new.elections[k]
            < new.elections[l] by {
            if l < old.elections.len() {
                assert(new.elections[k] == old.elections[k]);
                assert(new.elections[l] == old.elections[l]);
            } else {
                assert(new.elections[k] == old.elections[k]);
                assert(s.has_election(old.elections[k]));
            }
        }
    }
    assert forall|i: int| 0 <= i < t.elections.len() implies #[trigger] t.election_wf(i) by {
        if i < s.elections.len() {
            assert(s.election_wf(i));
            assert(t.elections[i] == s.elections[i]);
            let its_issuer = s.elections[i].election.issuer;
            lemma_find_administration(s, its_issuer);
            let j = s.find_administration(its_issuer).unwrap();
            let witness = choose|k: int|
                0 <= k < s.administrations[j].elections.len() && s.administrations[j].elections[k]
                    == i;
            assert(t.administrations[j].elections[witness] == i);
        } else {
            assert(t.administrations[at].elections[s.administrations[at].elections.len() as int]
                == next);
            assert(voters(t.elections[i].votes) =~= Seq::empty());
        }
    }
}

/// Recording the first vote of a participant in an election, for one of its
/// options, keeps the ledger well formed.
pub proof fn lemma_vote(
    s: SchemaView,
    id: int,
    voter: ParticipantAddress,
    option_id: ElectionOptionAddress,
    transaction: Digest,
    history_hash: Digest,
)
    requires
        s.wf(),
        s.has_election(id),
        !s.voted_yet(id, voter),
        0 <= option_id < s.election(id).election.options.len(),
    ensures
        ({
            let t = s.vote(id, voter, option_id, transaction, history_hash);
            &&& t.wf()
            &&& t.voted_yet(id, voter)
            &&& forall|other: ParticipantAddress|
                other != voter ==> #[trigger] t.voted_yet(id, other) == s.voted_yet(id, other)
        }),
{
    let t = s.vote(id, voter, option_id, transaction, history_hash);
    assert(s.election_wf(id));
    let old = s.elections[id];
    let keys = voters(old.votes);
    let place = lower_bound(keys, voter);
    lemma_insert_keeps_order(keys, voter);
    lemma_lower_bound_splits(keys, voter);
    lemma_voters_insert(old.votes, place, Ballot { voter, option_id });
    assert forall|i: int| 0 <= i < t.participants.len() implies #[trigger] t.participant_wf(i) by {
        assert(s.participant_wf(i));
    }
    assert forall|i: int| 0 <= i < t.administrations.len() implies #[trigger] t.administration_wf(
        i,
    ) by {
        assert(s.administration_wf(i));
        let entry = s.administrations[i];
        assert forall|k: int| 0 <= k < entry.elections.len() implies t.has_election(
            #[trigger] entry.elections[k],
        ) && t.election(entry.elections[k]).election.issuer == entry.administration.addr by {
            assert(s.has_election(entry.elections[k]));
        }
    }
    assert forall|i: int| 0 <= i < t.elections.len() implies #[trigger] t.election_wf(i) by {
        assert(s.election_wf(i));
        if i == id {
            let new = t.elections[i];
            assert forall|k: int| 0 <= k < new.votes.len() implies 0 <= (
            #[trigger] new.votes[k]).option_id < new.election.options.len() by {
                if k < place {
                    assert(new.votes[k] == old.votes[k]);
                } else if k > place {
                    assert(new.votes[k] == old.votes[k - 1]);
                }
            }
        }
    }
    assert forall|other: ParticipantAddress| other != voter implies #[trigger] t.voted_yet(
        id,
        other,
    ) == s.voted_yet(id, other) by {
        assert(find(voters(t.elections[id].votes), other) == match find(keys, other) {
            Some(i) => Some(moved(place, i)),
            None => None,
        });
    }
}

/// Telling the ledger the name of its time oracle keeps it well formed.
pub proof fn lemma_configure(s: SchemaView, time_service_name: Seq<char>)
    requires
        s.wf(),
    ensures
        s.configure(time_service_name).wf(),
{
    let t = s.configure(time_service_name);
    assert forall|i: int| 0 <= i < t.participants.len() implies #[trigger] t.participant_wf(i) by {
        assert(s.participant_wf(i));
    }
    assert forall|i: int| 0 <= i < t.administrations.len() implies #[trigger] t.administration_wf(
        i,
    ) by {
        assert(s.administration_wf(i));
    }
    assert forall|i: int| 0 <= i < t.elections.len() implies #[trigger] t.election_wf(i) by {
        assert(s.election_wf(i));
    }
}

} // verus!
