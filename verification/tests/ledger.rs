use std::collections::HashMap;

use crypto_election::api::PublicApi;
use crypto_election::crypto::{Address, Digest};
use crypto_election::error::QueryError;
use crypto_election::model::geo::{Coordinate, LineString, Polygon};
use crypto_election::model::public_api::{ElectionConvert, KeyQuery, Node};
use crypto_election::model::time::{
    Timestamp, MAX_SECONDS, MAX_SHIFT, MIN_SECONDS, SECONDS_PER_DAY, SECONDS_PER_WEEK,
};
use crypto_election::model::transactions::{
    Config, CreateAdministration, CreateParticipant, IssueElection, SubmitLocation, Vote,
};
use crypto_election::model::wrappers::{
    HashedKeyModeWrapper, KeyMode, OptionalContainer, RawKeyModeWrapper, TypeWrapper, VecI64,
};
use crypto_election::model::{Administration, Election, ElectionOption, Participant};
use crypto_election::schema::participant_schema::{LocationCount, Weight};
use crypto_election::schema::repository::Repository;
use crypto_election::schema::view::{Ballot, TimePositionInfo};
use crypto_election::schema::ElectionSchema;
use crypto_election::service::{ElectionService, TimeOracle};
use crypto_election::tx_behavior::{extract_info, Error, ExecutionError, Invocation};

const ORACLE: &str = "time-oracle";
const NOW: i64 = 1_600_000_000;

fn addr(n: u64) -> Address {
    Digest::new(0, 0, 0, n)
}

fn moment(seconds: i64) -> Timestamp {
    Timestamp::new(seconds, 0)
}

fn call(caller: Address, n: u64) -> Invocation {
    Invocation {
        caller,
        transaction_hash: Some(Digest::new(1, 0, 0, n)),
        history_hash: Digest::new(2, 0, 0, n),
    }
}

fn oracles(time: Option<Timestamp>) -> Vec<TimeOracle> {
    vec![TimeOracle { name: ORACLE.to_owned(), time }]
}

fn configured() -> ElectionSchema {
    let mut schema = ElectionSchema::new();
    ElectionService.apply_config(&mut schema, Config { time_service_name: ORACLE.to_owned() });
    schema
}

fn participant(name: &str, residence: Option<Address>) -> CreateParticipant {
    CreateParticipant {
        name: name.to_owned(),
        email: format!("{}@example.com", name),
        phone_number: "+380710000000".to_owned(),
        residence: OptionalContainer(residence),
        pass_code: "AA000000".to_owned(),
    }
}

fn administration(name: &str, principal: Option<Address>) -> CreateAdministration {
    CreateAdministration {
        name: name.to_owned(),
        principal_key: OptionalContainer(principal),
        area: Polygon::empty(),
    }
}

fn election(name: &str, start: i64, finish: i64, options: &[&str]) -> IssueElection {
    IssueElection {
        name: name.to_owned(),
        start_date: moment(start),
        finish_date: moment(finish),
        options: options.iter().map(|o| o.to_string()).collect(),
    }
}

fn service() -> ElectionService {
    ElectionService
}

/// A ledger with the root administration 100, its election 0 with three
/// options that runs from NOW for an hour, and the participants 1 and 2.
fn colors() -> ElectionSchema {
    let mut schema = configured();
    service().create_administration(&mut schema, &call(addr(100), 1), administration("A", None)).unwrap();
    service()
        .issue_election(
            &mut schema,
            &call(addr(100), 2),
            election("colors", NOW, NOW + 3600, &["red", "green", "blue"]),
        )
        .unwrap();
    service().create_participant(&mut schema, &call(addr(1), 3), participant("Alice", None)).unwrap();
    service().create_participant(&mut schema, &call(addr(2), 4), participant("Bob", None)).unwrap();
    schema
}

fn results(schema: &ElectionSchema, id: i64) -> HashMap<i32, u32> {
    schema.election_results(id).unwrap()
}

fn counts(pairs: &[(i32, u32)]) -> HashMap<i32, u32> {
    pairs.iter().cloned().collect()
}

#[test]
fn two_votes_are_counted_and_green_stays_at_zero() {
    let mut schema = colors();
    assert_eq!(results(&schema, 0), counts(&[(0, 0), (1, 0), (2, 0)]));
    assert_eq!(service().vote(&mut schema, &call(addr(1), 5), moment(NOW), Vote::new(0, 0, 7)), Ok(()));
    assert_eq!(service().vote(&mut schema, &call(addr(2), 6), moment(NOW), Vote::new(0, 2, 8)), Ok(()));
    assert_eq!(results(&schema, 0), counts(&[(0, 1), (1, 0), (2, 1)]));
    assert_eq!(schema.vote_count(0), 2);
}

#[test]
fn second_vote_is_rejected_and_changes_nothing() {
    let mut schema = colors();
    assert_eq!(service().vote(&mut schema, &call(addr(1), 5), moment(NOW), Vote::new(0, 0, 1)), Ok(()));
    let first = results(&schema, 0);
    let history = schema.election_history(0);
    assert_eq!(
        service().vote(&mut schema, &call(addr(1), 6), moment(NOW + 1), Vote::new(0, 1, 2)),
        Err(ExecutionError::Service(Error::VotedYet))
    );
    assert_eq!(results(&schema, 0), first);
    assert_eq!(first, counts(&[(0, 1), (1, 0), (2, 0)]));
    assert_eq!(schema.election_history(0), history);
    assert_eq!(schema.election(0).unwrap().history_len, 2);
}

#[test]
fn of_many_attempts_exactly_one_vote_counts() {
    let mut schema = colors();
    let mut accepted = 0;
    for n in 0..10u64 {
        let option = (n % 3) as i32;
        match service().vote(&mut schema, &call(addr(1), 10 + n), moment(NOW + n as i64), Vote::new(0, option, n)) {
            Ok(()) => accepted += 1,
            Err(error) => assert_eq!(error, ExecutionError::Service(Error::VotedYet)),
        }
    }
    assert_eq!(accepted, 1);
    let sum: u32 = results(&schema, 0).values().sum();
    assert_eq!(sum, 1);
    assert_eq!(schema.vote_count(0), 1);
    assert!(schema.voted_yet(0, &addr(1)));
    assert!(!schema.voted_yet(0, &addr(2)));
    assert!(!schema.voted_yet(5, &addr(1)));
}

#[test]
fn votes_are_taken_from_the_start_up_to_the_finish() {
    let mut schema = colors();
    assert_eq!(
        service().vote(&mut schema, &call(addr(1), 5), Timestamp::new(NOW - 1, 999_999_999), Vote::new(0, 0, 1)),
        Err(ExecutionError::Service(Error::ElectionNotStartedYet))
    );
    assert_eq!(
        service().vote(&mut schema, &call(addr(1), 6), moment(NOW + 3600), Vote::new(0, 0, 1)),
        Err(ExecutionError::Service(Error::ElectionInactive))
    );
    assert_eq!(
        service().vote(&mut schema, &call(addr(1), 7), moment(NOW + 7200), Vote::new(0, 0, 1)),
        Err(ExecutionError::Service(Error::ElectionInactive))
    );
    assert_eq!(service().vote(&mut schema, &call(addr(1), 8), moment(NOW), Vote::new(0, 0, 1)), Ok(()));
    assert_eq!(
        service().vote(&mut schema, &call(addr(2), 9), Timestamp::new(NOW + 3599, 999_999_999), Vote::new(0, 1, 1)),
        Ok(())
    );
}

#[test]
fn a_vote_is_checked_in_order() {
    let mut schema = colors();
    let no_hash = Invocation { caller: addr(1), transaction_hash: None, history_hash: Digest::zero() };
    assert_eq!(
        service().vote(&mut schema, &no_hash, moment(NOW), Vote::new(0, 0, 1)),
        Err(ExecutionError::UnauthorizedCaller)
    );
    assert_eq!(
        service().vote(&mut schema, &call(addr(9), 5), moment(NOW), Vote::new(7, 9, 1)),
        Err(ExecutionError::Service(Error::ParticipantNotFound))
    );
    assert_eq!(
        service().vote(&mut schema, &call(addr(1), 5), moment(NOW), Vote::new(1, 0, 1)),
        Err(ExecutionError::Service(Error::ElectionNotFound))
    );
    assert_eq!(
        service().vote(&mut schema, &call(addr(1), 5), moment(NOW), Vote::new(-1, 0, 1)),
        Err(ExecutionError::Service(Error::ElectionNotFound))
    );
    assert_eq!(
        service().vote(&mut schema, &call(addr(1), 5), moment(NOW - 5), Vote::new(0, 3, 1)),
        Err(ExecutionError::Service(Error::ElectionNotStartedYet))
    );
    assert_eq!(
        service().vote(&mut schema, &call(addr(1), 5), moment(NOW), Vote::new(0, 3, 1)),
        Err(ExecutionError::Service(Error::OptionNotFound))
    );
    assert_eq!(
        service().vote(&mut schema, &call(addr(1), 5), moment(NOW), Vote::new(0, -1, 1)),
        Err(ExecutionError::Service(Error::OptionNotFound))
    );
    assert_eq!(schema.vote_count(0), 0);
}

#[test]
fn levels_count_the_steps_to_the_root() {
    let mut schema = configured();
    service().create_administration(&mut schema, &call(addr(10), 1), administration("A", None)).unwrap();
    service().create_administration(&mut schema, &call(addr(5), 2), administration("B", Some(addr(10)))).unwrap();
    service().create_administration(&mut schema, &call(addr(20), 3), administration("C", Some(addr(5)))).unwrap();
    assert_eq!(schema.administration(&addr(10)).unwrap().administration_level, 0);
    assert_eq!(schema.administration(&addr(5)).unwrap().administration_level, 1);
    assert_eq!(schema.administration(&addr(20)).unwrap().administration_level, 2);
    let chain = schema.iter_principals(&addr(20)).unwrap();
    let names: Vec<&str> = chain.iter().map(|a| a.name.as_str()).collect();
    assert_eq!(names, vec!["C", "B", "A"]);
    for pair in chain.windows(2) {
        assert_eq!(pair[0].principal_key.0, Some(pair[1].addr));
        assert_eq!(pair[0].administration_level, pair[1].administration_level + 1);
    }
    assert_eq!(chain[2].principal_key.0, None);
    let same = schema.iter_principals_from_current(&addr(20)).unwrap();
    assert_eq!(same.len(), 3);
    assert_eq!(schema.iter_principals(&addr(21)).unwrap_err(), QueryError::NotFound);
}

#[test]
fn an_unknown_principal_is_refused() {
    let mut schema = configured();
    assert_eq!(
        service().create_administration(&mut schema, &call(addr(5), 1), administration("B", Some(addr(10)))),
        Err(ExecutionError::Service(Error::AdministrationNotFound))
    );
    assert_eq!(
        service().create_administration(&mut schema, &call(addr(5), 1), administration("B", Some(addr(5)))),
        Err(ExecutionError::Service(Error::AdministrationNotFound))
    );
    assert!(schema.administration(&addr(5)).is_none());
    assert!(schema.administrations().is_empty());
}

#[test]
fn tables_are_kept_in_the_order_of_the_addresses() {
    let mut schema = configured();
    let keys = [
        Digest::new(0, 0, 0, 7),
        Digest::new(0, 0, 1, 0),
        Digest::new(0, 0, 0, 3),
        Digest::new(5, 0, 0, 0),
        Digest::new(0, 9, 0, 0),
        Digest::new(0, 0, 0, 5),
    ];
    for (n, key) in keys.iter().enumerate() {
        service().create_participant(&mut schema, &call(*key, n as u64), participant("P", None)).unwrap();
        service().create_administration(&mut schema, &call(*key, n as u64), administration("A", None)).unwrap();
    }
    let listed: Vec<Address> = schema.participants().iter().map(|e| e.participant.addr).collect();
    let expected = vec![
        Digest::new(0, 0, 0, 3),
        Digest::new(0, 0, 0, 5),
        Digest::new(0, 0, 0, 7),
        Digest::new(0, 0, 1, 0),
        Digest::new(0, 9, 0, 0),
        Digest::new(5, 0, 0, 0),
    ];
    assert_eq!(listed, expected);
    let listed: Vec<Address> = schema.administrations().iter().map(|e| e.administration.addr).collect();
    assert_eq!(listed, expected);
    for key in keys.iter() {
        assert_eq!(schema.participant(key).unwrap().addr, *key);
        assert_eq!(schema.administration(key).unwrap().addr, *key);
    }
    assert!(schema.participant(&Digest::new(0, 0, 0, 4)).is_none());
    assert_eq!(PublicApi::all_elections(&schema).len(), 0);
    assert_eq!(schema.all_participants().len(), 6);
}

#[test]
fn digests_are_ordered_as_numbers() {
    assert!(Digest::new(0, 0, 0, 1).lt(&Digest::new(0, 0, 0, 2)));
    assert!(Digest::new(0, 0, 0, u64::MAX).lt(&Digest::new(0, 0, 1, 0)));
    assert!(Digest::new(0, u64::MAX, u64::MAX, u64::MAX).lt(&Digest::new(1, 0, 0, 0)));
    assert!(!Digest::new(1, 0, 0, 0).lt(&Digest::new(0, 9, 9, 9)));
    assert!(!Digest::new(3, 3, 3, 3).lt(&Digest::new(3, 3, 3, 3)));
    assert!(Digest::zero().is_zero());
    assert!(!Digest::new(0, 0, 1, 0).is_zero());
}

#[test]
fn elections_get_the_next_address_and_numbered_options() {
    let mut schema = configured();
    service().create_administration(&mut schema, &call(addr(100), 1), administration("A", None)).unwrap();
    service().create_administration(&mut schema, &call(addr(50), 2), administration("B", None)).unwrap();
    for n in 0..3u64 {
        let issuer = if n == 1 { addr(50) } else { addr(100) };
        assert_eq!(schema.election_count(), n as usize);
        service()
            .issue_election(&mut schema, &call(issuer, 10 + n), election("E", NOW, NOW + 1, &["a", "b"]))
            .unwrap();
    }
    let all = PublicApi::all_elections(&schema);
    let addresses: Vec<i64> = all.iter().map(|e| e.addr).collect();
    assert_eq!(addresses, vec![0, 1, 2]);
    for e in all.iter() {
        let ids: Vec<i32> = e.options.iter().map(|o| o.id).collect();
        assert_eq!(ids, vec![0, 1]);
        assert_eq!(e.options[1].title, "b");
        assert!(!e.is_cancelled);
        assert_eq!(e.history_len, 1);
    }
    assert_eq!(schema.election_ids_of_administration(&addr(100)), Some(vec![0, 2]));
    assert_eq!(schema.election_ids_of_administration(&addr(50)), Some(vec![1]));
    assert_eq!(schema.election_ids_of_administration(&addr(51)), None);
    assert_eq!(schema.all_elections_of_administration(&addr(100)).unwrap().len(), 2);
    assert!(schema.all_elections_of_administration(&addr(51)).is_none());
    assert!(schema.election(3).is_none());
    assert!(schema.election(-1).is_none());
}

#[test]
fn an_election_must_start_before_it_finishes() {
    let mut schema = configured();
    service().create_administration(&mut schema, &call(addr(100), 1), administration("A", None)).unwrap();
    assert_eq!(
        service().issue_election(&mut schema, &call(addr(100), 2), election("E", NOW, NOW, &["a"])),
        Err(ExecutionError::Service(Error::ElectionFinishedEarlierStart))
    );
    assert_eq!(
        service().issue_election(&mut schema, &call(addr(100), 2), election("E", NOW, NOW - 1, &["a"])),
        Err(ExecutionError::Service(Error::ElectionFinishedEarlierStart))
    );
    let late = IssueElection {
        name: "E".to_owned(),
        start_date: Timestamp::new(NOW, 1),
        finish_date: Timestamp::new(NOW, 1),
        options: vec![],
    };
    assert_eq!(
        service().issue_election(&mut schema, &call(addr(100), 2), late),
        Err(ExecutionError::Service(Error::ElectionFinishedEarlierStart))
    );
    let short = IssueElection {
        name: "E".to_owned(),
        start_date: Timestamp::new(NOW, 1),
        finish_date: Timestamp::new(NOW, 2),
        options: vec![],
    };
    assert_eq!(service().issue_election(&mut schema, &call(addr(100), 2), short), Ok(()));
    assert_eq!(schema.election_count(), 1);
    assert_eq!(results(&schema, 0), HashMap::new());
}

#[test]
fn history_counts_every_accepted_transaction() {
    let mut schema = colors();
    assert_eq!(schema.participant(&addr(1)).unwrap().history_len, 1);
    assert_eq!(schema.participant_history(&addr(1)), vec![Digest::new(1, 0, 0, 3)]);
    assert_eq!(schema.participant(&addr(1)).unwrap().history_hash, Digest::new(2, 0, 0, 3));
    assert_eq!(schema.administration(&addr(100)).unwrap().history_len, 1);
    assert_eq!(schema.administration_history(&addr(100)), vec![Digest::new(1, 0, 0, 1)]);
    assert_eq!(schema.election_history(0), vec![Digest::new(1, 0, 0, 2)]);

    service().vote(&mut schema, &call(addr(1), 5), moment(NOW), Vote::new(0, 0, 7)).unwrap();
    service().vote(&mut schema, &call(addr(2), 6), moment(NOW), Vote::new(0, 1, 7)).unwrap();
    let e = schema.election(0).unwrap();
    assert_eq!(e.history_len, 3);
    assert_eq!(e.history_hash, Digest::new(2, 0, 0, 6));
    assert_eq!(
        schema.election_history(0),
        vec![Digest::new(1, 0, 0, 2), Digest::new(1, 0, 0, 5), Digest::new(1, 0, 0, 6)]
    );
    assert_eq!(
        schema.election_votes(0),
        vec![Ballot { voter: addr(1), option_id: 0 }, Ballot { voter: addr(2), option_id: 1 }]
    );

    service()
        .submit_location(&mut schema, &call(addr(1), 7), moment(NOW), location(), &vec![true])
        .unwrap();
    let p = schema.participant(&addr(1)).unwrap();
    assert_eq!(p.history_len, 2);
    assert_eq!(p.history_hash, Digest::new(2, 0, 0, 7));
    assert_eq!(p.name, "Alice");
    assert_eq!(schema.participant_history(&addr(1)), vec![Digest::new(1, 0, 0, 3), Digest::new(1, 0, 0, 7)]);
    assert_eq!(schema.participant_history(&addr(77)), Vec::<Digest>::new());
    assert_eq!(schema.administration_history(&addr(77)), Vec::<Digest>::new());
    assert_eq!(schema.election_history(9), Vec::<Digest>::new());
    assert_eq!(schema.election_votes(9), Vec::<Ballot>::new());
    assert_eq!(schema.participant(&addr(2)).unwrap().history_len, 1);
}

fn location() -> SubmitLocation {
    SubmitLocation { position: Coordinate::new(0, 0), date: moment(NOW), seed: 1 }
}

/// Administrations 10 (root), 20 (below 10), 30 (below 20), 40 (root), and
/// the participant 1.
fn districts() -> ElectionSchema {
    let mut schema = configured();
    service().create_administration(&mut schema, &call(addr(10), 1), administration("country", None)).unwrap();
    service().create_administration(&mut schema, &call(addr(20), 2), administration("region", Some(addr(10)))).unwrap();
    service().create_administration(&mut schema, &call(addr(30), 3), administration("city", Some(addr(20)))).unwrap();
    service().create_administration(&mut schema, &call(addr(40), 4), administration("island", None)).unwrap();
    service().create_participant(&mut schema, &call(addr(1), 5), participant("Alice", Some(addr(20)))).unwrap();
    schema
}

#[test]
fn the_deepest_containing_administration_wins() {
    let mut schema = districts();
    assert_eq!(schema.locate(&vec![true, true, true, false]), Some(addr(30)));
    assert_eq!(schema.locate(&vec![true, true, false, true]), Some(addr(20)));
    assert_eq!(schema.locate(&vec![true, false, false, true]), Some(addr(10)));
    assert_eq!(schema.locate(&vec![false, false, false, true]), Some(addr(40)));
    assert_eq!(schema.locate(&vec![false, false, false, false]), None);
    assert_eq!(schema.locate(&vec![]), None);
    assert_eq!(schema.locate(&vec![false, true]), Some(addr(20)));
    assert_eq!(schema.locate(&vec![false, false, false, false, true, true]), None);

    assert_eq!(
        service().submit_location(&mut schema, &call(addr(1), 6), moment(NOW), location(), &vec![true, true, false, false]),
        Ok(())
    );
    assert_eq!(
        service().submit_location(&mut schema, &call(addr(1), 7), moment(NOW + 5), location(), &vec![true, true, true, true]),
        Ok(())
    );
    assert_eq!(
        schema.participant_location_history(&addr(1)),
        vec![
            TimePositionInfo { time: moment(NOW), location: addr(20) },
            TimePositionInfo { time: moment(NOW + 5), location: addr(30) },
        ]
    );
    assert_eq!(
        service().submit_location(&mut schema, &call(addr(1), 8), moment(NOW), location(), &vec![false, false, false, false]),
        Err(ExecutionError::Service(Error::BadLocation))
    );
    assert_eq!(
        service().submit_location(&mut schema, &call(addr(2), 8), moment(NOW), location(), &vec![true]),
        Err(ExecutionError::Service(Error::ParticipantNotFound))
    );
    assert_eq!(schema.participant_location_history(&addr(1)).len(), 2);
    assert_eq!(schema.participant(&addr(1)).unwrap().history_len, 3);
}

#[test]
fn elections_of_the_principals_are_visible_below() {
    let mut schema = districts();
    service().issue_election(&mut schema, &call(addr(10), 10), election("national", NOW, NOW + 100, &["y", "n"])).unwrap();
    service().issue_election(&mut schema, &call(addr(30), 11), election("local", NOW + 50, NOW + 200, &["y", "n"])).unwrap();
    service().issue_election(&mut schema, &call(addr(20), 12), election("regional", NOW + 300, NOW + 400, &["y", "n"])).unwrap();
    service().issue_election(&mut schema, &call(addr(40), 13), election("insular", NOW, NOW + 100, &["y", "n"])).unwrap();

    let names = |list: Vec<Election>| -> Vec<String> { list.into_iter().map(|e| e.name).collect() };
    assert_eq!(
        names(schema.elections_of_administration_hierarchically(&addr(30)).unwrap()),
        vec!["local", "regional", "national"]
    );
    assert_eq!(schema.election_ids_of_hierarchy(&addr(30)).unwrap(), vec![1, 2, 0]);
    assert_eq!(names(schema.elections_of_administration_hierarchically(&addr(10)).unwrap()), vec!["national"]);
    assert_eq!(
        schema.elections_of_administration_hierarchically(&addr(11)).unwrap_err(),
        QueryError::NotFound
    );

    assert_eq!(names(schema.active_elections(&addr(30), moment(NOW)).unwrap()), vec!["national"]);
    assert_eq!(names(schema.active_elections(&addr(30), moment(NOW + 50)).unwrap()), vec!["local", "national"]);
    assert_eq!(names(schema.active_elections(&addr(30), moment(NOW + 100)).unwrap()), vec!["local"]);
    assert_eq!(names(schema.active_elections(&addr(30), moment(NOW + 250)).unwrap()), Vec::<String>::new());
    assert_eq!(schema.active_elections(&addr(31), moment(NOW)).unwrap_err(), QueryError::NotFound);

    assert_eq!(
        names(schema.get_elections_in_range(&addr(30), moment(NOW + 100), moment(NOW + 300)).unwrap()),
        vec!["local", "regional"]
    );
    assert_eq!(
        names(schema.get_elections_in_range(&addr(30), moment(NOW + 200), moment(NOW + 299)).unwrap()),
        Vec::<String>::new()
    );
    assert_eq!(
        names(schema.available_elections(&addr(30), moment(NOW - SECONDS_PER_WEEK)).unwrap()),
        vec!["national"]
    );
    assert_eq!(
        names(schema.available_elections(&addr(30), moment(NOW - SECONDS_PER_WEEK - 1)).unwrap()),
        Vec::<String>::new()
    );
    assert_eq!(
        names(schema.available_elections(&addr(20), moment(NOW + 99)).unwrap()),
        vec!["regional", "national"]
    );

    assert_eq!(names(schema.elections_available_at_moment(&addr(30), moment(NOW + 50)).unwrap()), vec!["local"]);
    assert_eq!(names(schema.elections_available_at_moment(&addr(30), moment(NOW + 200)).unwrap()), Vec::<String>::new());
    assert!(schema.elections_available_at_moment(&addr(31), moment(NOW)).is_none());

    let active = PublicApi::active_elections(&schema, KeyQuery { key: addr(20) }, &oracles(Some(moment(NOW + 350))));
    assert_eq!(names(active.unwrap()), vec!["regional"]);
}

#[test]
fn the_time_comes_from_the_configured_oracle() {
    let schema = ElectionSchema::new();
    assert_eq!(PublicApi::get_time(&schema, &oracles(Some(moment(NOW)))), Err(QueryError::ConfigNotFound));
    let schema = configured();
    assert_eq!(PublicApi::get_time(&schema, &oracles(Some(moment(NOW)))), Ok(moment(NOW)));
    assert_eq!(PublicApi::get_time(&schema, &oracles(None)), Err(QueryError::TimeNotSet));
    assert_eq!(PublicApi::get_time(&schema, &vec![]), Err(QueryError::TimeServiceNotFound));
    let others = vec![
        TimeOracle { name: "other".to_owned(), time: Some(moment(1)) },
        TimeOracle { name: ORACLE.to_owned(), time: Some(moment(2)) },
        TimeOracle { name: ORACLE.to_owned(), time: Some(moment(3)) },
    ];
    assert_eq!(PublicApi::get_time(&schema, &others), Ok(moment(2)));
    assert_eq!(
        PublicApi::active_elections(&schema, KeyQuery { key: addr(1) }, &oracles(None)).unwrap_err(),
        QueryError::TimeNotSet
    );
    assert_eq!(
        PublicApi::active_elections(&schema, KeyQuery { key: addr(1) }, &oracles(Some(moment(NOW)))).unwrap_err(),
        QueryError::NotFound
    );
    assert_eq!(
        PublicApi::elections_suggested_for(&schema, KeyQuery { key: addr(1) }, &oracles(Some(moment(NOW)))).unwrap_err(),
        QueryError::NotFound
    );
    assert_eq!(
        PublicApi::elections_suggested_for(&schema, KeyQuery { key: addr(1) }, &vec![]).unwrap_err(),
        QueryError::TimeServiceNotFound
    );
    assert_eq!(
        PublicApi::election_results(&schema, KeyQuery { key: 0 }).unwrap_err(),
        QueryError::NotFound
    );
}

#[test]
fn a_configuration_needs_its_oracle() {
    let mut schema = ElectionSchema::new();
    let config = || Config { time_service_name: ORACLE.to_owned() };
    assert_eq!(service().verify_config(&config(), &vec![]), Err(QueryError::TimeServiceNotFound));
    assert_eq!(service().initialize(&mut schema, config(), &vec![]), Err(QueryError::TimeServiceNotFound));
    assert!(schema.config().is_none());
    assert_eq!(service().verify_config(&config(), &oracles(None)), Ok(()));
    assert_eq!(service().initialize(&mut schema, config(), &oracles(None)), Ok(()));
    assert_eq!(schema.config().as_ref().unwrap().time_service_name, ORACLE);
    assert_eq!(crypto_election::constant::TIME_SERVICE_NAME, ORACLE);
    assert_eq!(crypto_election::constant::BLOCKCHAIN_SERVICE_ID, 128);
    assert_eq!(crypto_election::constant::BLOCKCHAIN_SERVICE_NAME, "cryptoelection_blockchain_service");
}

#[test]
fn instants_move_within_the_calendar() {
    let t = Timestamp::new(NOW, 123);
    assert_eq!(t.checked_add_seconds(SECONDS_PER_WEEK), Some(Timestamp::new(NOW + 604_800, 123)));
    assert_eq!(t.checked_add_seconds(-28 * SECONDS_PER_DAY), Some(Timestamp::new(NOW - 2_419_200, 123)));
    assert_eq!(t.checked_add_seconds(0), Some(t));
    assert_eq!(Timestamp::new(MAX_SECONDS, 999_999_999).checked_add_seconds(0), Some(Timestamp::new(MAX_SECONDS, 999_999_999)));
    assert_eq!(Timestamp::new(MAX_SECONDS, 0).checked_add_seconds(1), None);
    assert_eq!(Timestamp::new(MAX_SECONDS - 1, 5).checked_add_seconds(1), Some(Timestamp::new(MAX_SECONDS, 5)));
    assert_eq!(Timestamp::new(MIN_SECONDS, 0).checked_add_seconds(-1), None);
    assert_eq!(Timestamp::new(MIN_SECONDS + 1, 0).checked_add_seconds(-1), Some(Timestamp::new(MIN_SECONDS, 0)));
    assert_eq!(
        Timestamp::new(MIN_SECONDS, 7).checked_add_seconds(MAX_SECONDS - MIN_SECONDS),
        Some(Timestamp::new(MAX_SECONDS, 7))
    );
    assert_eq!(Timestamp::new(MAX_SECONDS, 7).checked_add_seconds(MIN_SECONDS - MAX_SECONDS), Some(Timestamp::new(MIN_SECONDS, 7)));
    assert_eq!(Timestamp::new(MAX_SECONDS + 1, 0).checked_add_seconds(-1), None);
    assert_eq!(Timestamp::new(MIN_SECONDS - 1, 0).checked_add_seconds(1), None);
    assert_eq!(Timestamp::new(0, 1_000_000_000).checked_add_seconds(1), None);
    assert_eq!(Timestamp::new(0, 0).checked_add_seconds(MAX_SHIFT), None);
    assert_eq!(Timestamp::new(0, 0).checked_add_seconds(MAX_SHIFT + 1), None);
    assert_eq!(Timestamp::new(0, 0).checked_add_seconds(-MAX_SHIFT - 1), None);
    assert_eq!(Timestamp::new(0, 0).checked_add_seconds(i64::MIN), None);
    assert!(Timestamp::new(MIN_SECONDS, 0).is_representable());
    assert!(!Timestamp::new(MIN_SECONDS - 1, 0).is_representable());
    assert!(Timestamp::new(1, 0).is_before(&Timestamp::new(1, 1)));
    assert!(Timestamp::new(1, 5).is_before(&Timestamp::new(2, 0)));
    assert!(!Timestamp::new(1, 5).is_before(&Timestamp::new(1, 5)));
    assert!(Timestamp::new(1, 5).is_not_after(&Timestamp::new(1, 5)));
    assert!(!Timestamp::new(1, 6).is_not_after(&Timestamp::new(1, 5)));
}

#[test]
fn an_election_knows_its_window() {
    let e = Election::new(
        4,
        &addr(1),
        "E",
        &moment(10),
        &moment(20),
        &vec![ElectionOption { id: 0, title: "a".to_owned() }],
        1,
        &Digest::zero(),
    );
    assert_eq!(e.addr, 4);
    assert!(!e.is_cancelled);
    assert_eq!(e.options.len(), 1);
    assert!(e.not_started_yet(moment(9)));
    assert!(!e.not_started_yet(moment(10)));
    assert!(!e.is_active(moment(9)));
    assert!(e.is_active(moment(10)));
    assert!(e.is_active(moment(19)));
    assert!(!e.is_active(moment(20)));
    assert!(e.overlaps(moment(0), moment(10)));
    assert!(!e.overlaps(moment(0), moment(9)));
    assert!(e.overlaps(moment(19), moment(30)));
    assert!(!e.overlaps(moment(20), moment(30)));
    assert!(e.has_option(0));
    assert!(!e.has_option(1));
    let cancelled = Election { is_cancelled: true, ..e.clone() };
    assert!(!cancelled.is_active(moment(10)));
    assert!(!cancelled.not_started_yet(moment(9)));
    assert!(!cancelled.overlaps(moment(0), moment(30)));
}

#[test]
fn records_are_built_from_their_parts() {
    let p = Participant::new(&addr(1), "n", "e", "p", "c", &Some(addr(2)), 3, &addr(4));
    assert_eq!((p.addr, p.name.as_str(), p.email.as_str()), (addr(1), "n", "e"));
    assert_eq!((p.phone_number.as_str(), p.pass_code.as_str()), ("p", "c"));
    assert_eq!((p.residence.0, p.history_len, p.history_hash), (Some(addr(2)), 3, addr(4)));
    let q = Participant::from_transaction(&addr(5), participant("Q", None), 1, &addr(6));
    assert_eq!((q.addr, q.name.as_str(), q.residence.0, q.history_len), (addr(5), "Q", None, 1));
    assert_eq!(q.email, "Q@example.com");
    let area = Polygon::new(
        LineString::new(vec![Coordinate::new(1, 2), Coordinate::new(3, 4)]),
        vec![LineString::new(vec![Coordinate::new(5, 6)])],
    );
    let a = Administration::new(&addr(7), "A", &None, &area, 2, 1, &addr(8));
    assert_eq!((a.addr, a.name.as_str(), a.principal_key.0), (addr(7), "A", None));
    assert_eq!((a.administration_level, a.history_len, a.history_hash), (2, 1, addr(8)));
    assert_eq!(a.area.exterior.items, vec![Coordinate::new(1, 2), Coordinate::new(3, 4)]);
    assert_eq!(a.area.interiors[0].items, vec![Coordinate { x: 5, y: 6 }]);
    let copy = a.clone();
    assert_eq!(copy.area.interiors.len(), 1);
    assert_eq!(copy.name, "A");
}

#[test]
fn wrappers_keep_what_they_are_given() {
    let list = VecI64::new(&vec![1, 2], 2, &addr(1));
    let longer = list.append(3, 3, &addr(2));
    assert_eq!(list._0, vec![1, 2]);
    assert_eq!(longer._0, vec![1, 2, 3]);
    assert_eq!((longer.history_len, longer.history_hash), (3, addr(2)));
    assert_eq!(longer.into_vec(), vec![1, 2, 3]);

    assert_eq!(OptionalContainer(Some(addr(9))).encoded(), addr(9));
    assert_eq!(OptionalContainer::<Digest>(None).encoded(), Digest::zero());
    assert_eq!(OptionalContainer::<Digest>::decoded(Some(addr(9))).0, Some(addr(9)));
    assert_eq!(OptionalContainer::<Digest>::decoded(Some(Digest::zero())).0, None);
    assert_eq!(OptionalContainer::<Digest>::decoded(None).0, None);
    assert_eq!(OptionalContainer::new(Some(3u8)).into_option(), Some(3));
    assert_eq!(*OptionalContainer::<u8>::none().as_ref(), None);

    assert_eq!(RawKeyModeWrapper::key_mode(), KeyMode::Raw);
    assert_eq!(HashedKeyModeWrapper::key_mode(), KeyMode::Hashed);
    let vote = Vote::seeded(4, 2);
    assert_eq!((vote.election_id, vote.option_id), (4, 2));
}

#[test]
fn errors_have_their_numbers() {
    let all = [
        (Error::ParticipantAlreadyExists, 1, "Participant already exists"),
        (Error::AdministrationAlreadyExists, 2, "Administration already exists"),
        (Error::ParticipantNotFound, 3, "Unable to find participant"),
        (Error::AdministrationNotFound, 4, "Unable to find administration"),
        (Error::ElectionFinishedEarlierStart, 5, "Election finished before start"),
        (Error::ElectionNotFound, 6, "Unable to find election"),
        (Error::OptionNotFound, 7, "Unable to find selected option"),
        (Error::VotedYet, 8, "Vote for current participant has been counted yet"),
        (Error::ElectionInactive, 9, "Election not available for voting"),
        (Error::ElectionNotStartedYet, 10, "Election not started yet"),
        (Error::BadLocation, 11, "Location does not contains in any administration area"),
    ];
    for (error, code, text) in all.iter() {
        assert_eq!(error.code(), *code);
        assert_eq!(error.description(), *text);
    }
    assert_eq!(extract_info(&call(addr(3), 4)), Ok((addr(3), Digest::new(1, 0, 0, 4))));
    let anonymous = Invocation { caller: addr(3), transaction_hash: None, history_hash: addr(0) };
    assert_eq!(extract_info(&anonymous), Err(ExecutionError::UnauthorizedCaller));
    let mut schema = configured();
    assert_eq!(
        service().create_participant(&mut schema, &anonymous, participant("P", None)),
        Err(ExecutionError::UnauthorizedCaller)
    );
    assert_eq!(
        service().create_administration(&mut schema, &anonymous, administration("A", None)),
        Err(ExecutionError::UnauthorizedCaller)
    );
    assert_eq!(
        service().issue_election(&mut schema, &anonymous, election("E", 1, 2, &[])),
        Err(ExecutionError::UnauthorizedCaller)
    );
    assert_eq!(
        service().submit_location(&mut schema, &anonymous, moment(NOW), location(), &vec![]),
        Err(ExecutionError::UnauthorizedCaller)
    );
    assert!(schema.participants().is_empty());
}

#[test]
fn the_tree_follows_the_principals() {
    let schema = districts();
    let tree = PublicApi::administrations_tree(&schema).unwrap();
    assert_eq!(tree.len(), 2);
    match &tree[0] {
        Node::WithChildren { key, value, children } => {
            assert_eq!((*key, value.as_str()), (addr(10), "country"));
            assert_eq!(children.len(), 1);
            match &children[0] {
                Node::WithChildren { key, value, children } => {
                    assert_eq!((*key, value.as_str()), (addr(20), "region"));
                    assert_eq!(children.len(), 1);
                    match &children[0] {
                        Node::WithoutChildren { key, value } => {
                            assert_eq!((*key, value.as_str()), (addr(30), "city"));
                        },
                        other => panic!("unexpected node {:?}", other),
                    }
                },
                other => panic!("unexpected node {:?}", other),
            }
        },
        other => panic!("unexpected node {:?}", other),
    }
    match &tree[1] {
        Node::WithoutChildren { key, value } => assert_eq!((*key, value.as_str()), (addr(40), "island")),
        other => panic!("unexpected node {:?}", other),
    }
    assert!(PublicApi::administrations_tree(&ElectionSchema::new()).unwrap().is_empty());
}

fn chain(length: u64) -> ElectionSchema {
    let mut schema = configured();
    service().create_administration(&mut schema, &call(addr(1000), 0), administration("0", None)).unwrap();
    for n in 1..length {
        service()
            .create_administration(
                &mut schema,
                &call(addr(1000 - n), n),
                administration(&n.to_string(), Some(addr(1000 - n + 1))),
            )
            .unwrap();
    }
    schema
}

#[test]
fn a_walk_goes_sixty_four_levels_deep_and_no_deeper() {
    let schema = chain(65);
    let deepest = addr(1000 - 64);
    assert_eq!(schema.administration(&deepest).unwrap().administration_level, 64);
    let walked = schema.iter_principals(&deepest).unwrap();
    assert_eq!(walked.len(), 65);
    assert_eq!(walked[0].addr, deepest);
    assert_eq!(walked[64].addr, addr(1000));
    assert!(PublicApi::administrations_tree(&schema).is_ok());
    assert!(schema.election_ids_of_hierarchy(&deepest).unwrap().is_empty());

    let schema = chain(66);
    let deepest = addr(1000 - 65);
    assert_eq!(schema.administration(&deepest).unwrap().administration_level, 65);
    assert_eq!(schema.iter_principals(&deepest).unwrap_err(), QueryError::RecursionLimitExceeded);
    assert_eq!(schema.iter_principals(&addr(1000 - 64)).unwrap().len(), 65);
    assert_eq!(
        schema.active_elections(&deepest, moment(NOW)).unwrap_err(),
        QueryError::RecursionLimitExceeded
    );
    assert_eq!(
        schema.elections_of_administration_hierarchically(&deepest).unwrap_err(),
        QueryError::RecursionLimitExceeded
    );
    assert_eq!(PublicApi::administrations_tree(&schema).unwrap_err(), QueryError::RecursionLimitExceeded);
}

#[test]
fn the_least_visited_administrations_are_suggested_first() {
    let mut schema = districts();
    let visit = |schema: &mut ElectionSchema, n: u64, at: i64, hits: Vec<bool>| {
        service().submit_location(schema, &call(addr(1), 100 + n), moment(at), location(), &hits).unwrap();
    };
    let day = SECONDS_PER_DAY;
    // Older than 28 days: does not count.
    visit(&mut schema, 0, NOW - 28 * day - 1, vec![false, false, false, true]);
    // Exactly 28 days old: counts.
    visit(&mut schema, 1, NOW - 28 * day, vec![true, true, true, false]);
    visit(&mut schema, 2, NOW - 3 * day, vec![true, true, true, false]);
    visit(&mut schema, 3, NOW - 2 * day, vec![true, true, false, false]);
    visit(&mut schema, 4, NOW - day, vec![true, true, true, false]);

    // Pool: 30, 20, 30, 30 (latest first), residence 20, roots 10 and 40.
    // Counts: 30 -> 3, 20 -> 2, 10 -> 1, 40 -> 1.
    assert_eq!(
        schema.suggested_administrations_for(&addr(1), moment(NOW)),
        Some(vec![addr(10), addr(40), addr(20), addr(30)])
    );
    // A month later nothing of the history counts: 20 (residence), 10, 40, once each.
    assert_eq!(
        schema.suggested_administrations_for(&addr(1), moment(NOW + 40 * day)),
        Some(vec![addr(20), addr(10), addr(40)])
    );
    assert_eq!(schema.suggested_administrations_for(&addr(2), moment(NOW)), None);
    assert!(schema.residence_known(&addr(1)));
    assert!(schema.residence_known(&addr(2)));

    assert_eq!(
        schema.location_counts(&addr(1)),
        Some(vec![
            LocationCount { location: addr(40), count: 1 },
            LocationCount { location: addr(30), count: 3 },
            LocationCount { location: addr(20), count: 1 },
        ])
    );
    assert_eq!(schema.location_counts(&addr(2)), None);
}

#[test]
fn only_the_latest_thirty_locations_count() {
    let mut schema = districts();
    for n in 0..40u64 {
        let hits = if n < 10 { vec![false, false, false, true] } else { vec![true, false, false, false] };
        service()
            .submit_location(&mut schema, &call(addr(1), 100 + n), moment(NOW + n as i64), location(), &hits)
            .unwrap();
    }
    // The ten visits to 40 are older than the latest thirty, all to 10.
    // Counts: 10 -> 31, 20 -> 1, 40 -> 1; 20 comes first in the pool.
    assert_eq!(
        schema.suggested_administrations_for(&addr(1), moment(NOW + 40)),
        Some(vec![addr(20), addr(40), addr(10)])
    );
}

#[test]
fn shares_of_locations_are_decimal_fractions() {
    let mut schema = districts();
    assert_eq!(schema.location_history_with_weight(&addr(1)), Some(vec![]));
    assert_eq!(schema.location_history_with_weight(&addr(2)), None);
    for (n, hits) in [vec![true], vec![true, true], vec![true], vec![true]].into_iter().enumerate() {
        service()
            .submit_location(&mut schema, &call(addr(1), 100 + n as u64), moment(NOW), location(), &hits)
            .unwrap();
    }
    let weights = schema.location_history_with_weight(&addr(1)).unwrap();
    assert_eq!(weights.len(), 2);
    assert_eq!(weights[0].location, addr(10));
    assert_eq!(weights[0].weight, Weight { mantissa: 75, scale: 2 });
    assert_eq!(weights[1].location, addr(20));
    assert_eq!(weights[1].weight, Weight { mantissa: 25, scale: 2 });
}

#[test]
fn suggested_elections_show_results_to_those_who_voted() {
    let mut schema = districts();
    service().create_participant(&mut schema, &call(addr(2), 6), participant("Bob", None)).unwrap();
    service().issue_election(&mut schema, &call(addr(10), 10), election("national", NOW, NOW + 100, &["y", "n"])).unwrap();
    service().issue_election(&mut schema, &call(addr(20), 11), election("regional", NOW, NOW + 100, &["y", "n"])).unwrap();
    service().issue_election(&mut schema, &call(addr(20), 12), election("later", NOW + 100, NOW + 200, &["y"])).unwrap();
    service().vote(&mut schema, &call(addr(1), 13), moment(NOW), Vote::new(1, 1, 0)).unwrap();
    service().vote(&mut schema, &call(addr(2), 14), moment(NOW), Vote::new(1, 1, 0)).unwrap();

    let (groups, time) =
        PublicApi::elections_suggested_for(&schema, KeyQuery { key: addr(1) }, &oracles(Some(moment(NOW + 1)))).unwrap();
    assert_eq!(time, moment(NOW + 1));
    let names: Vec<&str> = groups.iter().map(|g| g.organization_name.as_str()).collect();
    assert_eq!(names, vec!["region", "country", "island"]);
    assert_eq!(groups[0].elections.len(), 1);
    let regional = &groups[0].elections[0];
    assert_eq!((regional.addr, regional.name.as_str()), (1, "regional"));
    assert!(regional.is_voted_yet);
    assert_eq!(regional.options[0].votes_count, Some(0));
    assert_eq!(regional.options[1].votes_count, Some(2));
    assert_eq!((regional.start_date, regional.finish_date), (moment(NOW), moment(NOW + 100)));
    let national = &groups[1].elections[0];
    assert!(!national.is_voted_yet);
    assert_eq!(national.options[0].votes_count, None);
    assert_eq!(national.options[0].title, "y");
    assert!(groups[2].elections.is_empty());
}

#[test]
fn at_most_five_administrations_are_suggested() {
    let mut schema = configured();
    for n in 0..7u64 {
        service().create_administration(&mut schema, &call(addr(10 + n), n), administration(&format!("A{}", n), None)).unwrap();
    }
    service().create_participant(&mut schema, &call(addr(1), 9), participant("P", Some(addr(16)))).unwrap();
    assert_eq!(schema.suggested_administrations_for(&addr(1), moment(NOW)).unwrap().len(), 7);
    let (groups, _) =
        PublicApi::elections_suggested_for(&schema, KeyQuery { key: addr(1) }, &oracles(Some(moment(NOW)))).unwrap();
    let names: Vec<&str> = groups.iter().map(|g| g.organization_name.as_str()).collect();
    assert_eq!(names, vec!["A0", "A1", "A2", "A3", "A4"]);
}

#[test]
fn an_election_is_shown_with_or_without_counts() {
    let e = Election::new(
        4,
        &addr(1),
        "E",
        &moment(10),
        &moment(20),
        &vec![
            ElectionOption { id: 0, title: "a".to_owned() },
            ElectionOption { id: 1, title: "b".to_owned() },
        ],
        1,
        &Digest::zero(),
    );
    let plain = ElectionConvert::from_election(e.clone());
    assert_eq!((plain.addr, plain.name.as_str(), plain.is_voted_yet, plain.is_cancelled), (4, "E", false, false));
    assert_eq!(plain.options[0].votes_count, None);
    let mut voted = ElectionConvert::from_vote_status(e.clone(), true);
    assert!(voted.is_voted_yet);
    assert_eq!(voted.options[1].votes_count, None);
    voted.set_voted();
    assert!(voted.is_voted_yet);
    let mut marked = ElectionConvert::from_election(e.clone());
    marked.set_voted();
    assert!(marked.is_voted_yet);
    let counted = ElectionConvert::from_results(e.clone(), true, &counts(&[(1, 5), (7, 9)]));
    assert_eq!(counted.options[0].votes_count, Some(0));
    assert_eq!(counted.options[1].votes_count, Some(5));
    assert_eq!((counted.options[1].id, counted.options[1].title.as_str()), (1, "b"));
    let same = ElectionConvert::from_metadata(e, false, Some(&counts(&[(0, 2)])));
    assert_eq!(same.options[0].votes_count, Some(2));
    assert_eq!(same.options[1].votes_count, Some(0));
}

#[test]
fn info_requests_name_table_mode_and_history() {
    let mut schema = colors();
    service().vote(&mut schema, &call(addr(1), 5), moment(NOW), Vote::new(0, 0, 7)).unwrap();
    let p = PublicApi::participant_info(&schema, KeyQuery { key: addr(1) });
    assert_eq!((p.index_name.as_str(), p.key_mode), ("participants", KeyMode::Raw));
    assert_eq!(p.history, Some(vec![Digest::new(1, 0, 0, 3)]));
    let p = PublicApi::participant_info(&schema, KeyQuery { key: addr(9) });
    assert_eq!(p.history, None);
    let a = PublicApi::administration_info(&schema, KeyQuery { key: addr(100) });
    assert_eq!((a.index_name.as_str(), a.key_mode), ("administrations", KeyMode::Raw));
    assert_eq!(a.history, Some(vec![Digest::new(1, 0, 0, 1)]));
    assert_eq!(PublicApi::administration_info(&schema, KeyQuery { key: addr(1) }).history, None);
    let e = PublicApi::election_info(&schema, KeyQuery { key: 0 });
    assert_eq!((e.index_name.as_str(), e.key_mode), ("elections", KeyMode::Hashed));
    assert_eq!(e.history, Some(vec![Digest::new(1, 0, 0, 2), Digest::new(1, 0, 0, 5)]));
    assert_eq!(PublicApi::election_info(&schema, KeyQuery { key: 1 }).history, None);
    assert_eq!(
        schema.state_hash(&addr(1), &addr(2), &addr(3)),
        vec![addr(1), addr(2), addr(3)]
    );
}

#[test]
fn repositories_read_single_tables() {
    let schema = colors();
    let participants = schema.participant_repository();
    assert!(participants.has(&addr(1)));
    assert!(!participants.has(&addr(100)));
    assert_eq!(participants.get(&addr(2)).unwrap().name, "Bob");
    assert!(participants.get(&addr(3)).is_none());
    assert_eq!(participants.require(&addr(1)).name, "Alice");
    let administrations = schema.administration_repository();
    assert!(administrations.has(&addr(100)));
    assert!(administrations.get(&addr(1)).is_none());
    assert_eq!(administrations.require(&addr(100)).name, "A");
    let elections = schema.election_repository();
    assert!(elections.has(&0));
    assert!(!elections.has(&1));
    assert_eq!(elections.get(&0).unwrap().name, "colors");
    assert_eq!(elections.require(&0).options.len(), 3);
}

#[test]
fn the_same_transactions_give_the_same_ledger() {
    let build = || {
        let mut schema = colors();
        service().vote(&mut schema, &call(addr(2), 5), moment(NOW), Vote::new(0, 2, 7)).unwrap();
        service().create_administration(&mut schema, &call(addr(50), 6), administration("B", Some(addr(100)))).unwrap();
        service().submit_location(&mut schema, &call(addr(2), 7), moment(NOW), location(), &vec![true, true]).unwrap();
        schema
    };
    assert_eq!(format!("{:?}", build()), format!("{:?}", build()));
}

#[test]
fn elections_that_start_or_finish_in_a_range_are_found() {
    let mut schema = districts();
    service().issue_election(&mut schema, &call(addr(10), 10), election("first", NOW, NOW + 100, &["y"])).unwrap();
    service().issue_election(&mut schema, &call(addr(10), 11), election("long", NOW - 500, NOW + 500, &["y"])).unwrap();
    service().issue_election(&mut schema, &call(addr(20), 12), election("other", NOW, NOW + 100, &["y"])).unwrap();
    let names = |list: Vec<Election>| -> Vec<String> { list.into_iter().map(|e| e.name).collect() };
    let found = |from: i64, to: i64| {
        names(schema.elections_available_on_time_range(&addr(10), moment(from), moment(to)).unwrap())
    };
    assert_eq!(found(NOW, NOW + 1), vec!["first"]);
    assert_eq!(found(NOW - 1, NOW), Vec::<String>::new());
    assert_eq!(found(NOW + 100, NOW + 101), vec!["first"]);
    assert_eq!(found(NOW + 1, NOW + 100), Vec::<String>::new());
    assert_eq!(found(NOW - 500, NOW + 501), vec!["first", "long"]);
    assert_eq!(found(NOW + 200, NOW + 300), Vec::<String>::new());
    assert!(schema.elections_available_on_time_range(&addr(11), moment(0), moment(1)).is_none());
    let e = schema.election(1).unwrap();
    assert!(e.turns_within(moment(NOW + 500), moment(NOW + 501)));
    assert!(!e.turns_within(moment(NOW), moment(NOW + 500)));
}
