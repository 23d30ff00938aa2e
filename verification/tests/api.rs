use std::collections::HashMap;

use crypto_election::api::PublicApi;
use crypto_election::crypto::{Address, Digest};
use crypto_election::model::geo::{LineString, Polygon};
use crypto_election::model::public_api::KeyQuery;
use crypto_election::model::time::Timestamp;
use crypto_election::model::transactions::{
    Config, CreateAdministration, CreateParticipant, IssueElection, Vote,
};
use crypto_election::model::wrappers::OptionalContainer;
use crypto_election::schema::ElectionSchema;
use crypto_election::service::{ElectionService, TimeOracle};
use crypto_election::tx_behavior::{Error, ExecutionError, Invocation};

const PARTICIPANT1_NAME: &str = "Alice";
const PARTICIPANT1_EMAIL: &str = "alice@example.com";
const PARTICIPANT1_PHONE_NUMBER: &str = "+380710000000";
const PARTICIPANT1_PASS_CODE: &str = "AA000000";

const PARTICIPANT2_NAME: &str = "Bob";
const PARTICIPANT2_EMAIL: &str = "bob@example.com";
const PARTICIPANT2_PHONE_NUMBER: &str = "+380710000001";
const PARTICIPANT2_PASS_CODE: &str = "AA000001";

const ADMINISTRATION1_NAME: &str = "Administration1";
const ADMINISTRATION2_NAME: &str = "Administration2";

const ELECTION1_NAME: &str = "Choose your favorite color";
const ELECTION1_OPTIONS: &[&str] = &["red", "green", "blue"];

const TIME_SERVICE_NAME: &str = "time-oracle";

struct TestKit {
    service: ElectionService,
    schema: ElectionSchema,
    oracles: Vec<TimeOracle>,
    transactions: u64,
}

fn create_test_kit() -> TestKit {
    let service = ElectionService;
    let mut schema = ElectionSchema::new();
    let oracles = vec![TimeOracle {
        name: TIME_SERVICE_NAME.to_owned(),
        time: Some(Timestamp::new(1_600_000_000, 0)),
    }];
    service
        .initialize(
            &mut schema,
            Config { time_service_name: TIME_SERVICE_NAME.to_owned() },
            &oracles,
        )
        .unwrap();
    TestKit { service, schema, oracles, transactions: 0 }
}

fn key(seed: u64) -> Address {
    Digest::new(seed.wrapping_mul(0x9E37_79B9_7F4A_7C15), seed, !seed, seed.rotate_left(17))
}

fn empty_polygon() -> Polygon {
    Polygon { interiors: Vec::with_capacity(0), exterior: LineString { items: Vec::with_capacity(0) } }
}

impl TestKit {
    fn now(&self) -> Timestamp {
        PublicApi::get_time(&self.schema, &self.oracles).unwrap()
    }

    fn call(&mut self, caller: Address) -> Invocation {
        self.transactions += 1;
        Invocation {
            caller,
            transaction_hash: Some(Digest::new(0, 0, 1, self.transactions)),
            history_hash: Digest::new(0, 0, 2, self.transactions),
        }
    }

    fn create_participant(
        &mut self,
        name: &str,
        email: &str,
        phone_number: &str,
        residence: &Option<Address>,
        pass_code: &str,
        key: Address,
    ) -> Result<(), ExecutionError> {
        let call = self.call(key);
        self.service.create_participant(
            &mut self.schema,
            &call,
            CreateParticipant {
                name: name.to_owned(),
                email: email.to_owned(),
                phone_number: phone_number.to_owned(),
                residence: OptionalContainer(*residence),
                pass_code: pass_code.to_owned(),
            },
        )
    }

    fn create_administration(
        &mut self,
        name: &str,
        principal: &Option<Address>,
        area: &Polygon,
        key: Address,
    ) -> Result<(), ExecutionError> {
        let call = self.call(key);
        self.service.create_administration(
            &mut self.schema,
            &call,
            CreateAdministration {
                name: name.to_owned(),
                principal_key: OptionalContainer(*principal),
                area: area.clone(),
            },
        )
    }

    fn issue_election(
        &mut self,
        name: &str,
        start_date: &Timestamp,
        finish_date: &Timestamp,
        options: &[&str],
        issuer: Address,
    ) -> Result<(), ExecutionError> {
        let call = self.call(issuer);
        self.service.issue_election(
            &mut self.schema,
            &call,
            IssueElection {
                name: name.to_owned(),
                start_date: *start_date,
                finish_date: *finish_date,
                options: options.iter().map(ToString::to_string).collect(),
            },
        )
    }

    fn vote(&mut self, election_id: i64, option_id: i32, voter: Address) -> Result<(), ExecutionError> {
        let call = self.call(voter);
        let now = self.now();
        self.service.vote(&mut self.schema, &call, now, Vote::seeded(election_id, option_id))
    }
}

#[test]
fn create_participant() {
    let mut kit = create_test_kit();
    let author = key(1);

    let tx = kit.create_participant(
        PARTICIPANT1_NAME,
        PARTICIPANT1_EMAIL,
        PARTICIPANT1_PHONE_NUMBER,
        &None,
        PARTICIPANT1_PASS_CODE,
        author,
    );
    assert_eq!(tx, Ok(()));

    let participant = kit.schema.participant(&author).unwrap();

    assert_eq!(participant.addr, author);
    assert_eq!(participant.name, PARTICIPANT1_NAME);
    assert_eq!(participant.email, PARTICIPANT1_EMAIL);
    assert_eq!(participant.phone_number, PARTICIPANT1_PHONE_NUMBER);
    assert_eq!(participant.pass_code, PARTICIPANT1_PASS_CODE);
}

#[test]
fn create_administration() {
    let mut kit = create_test_kit();
    let author = key(2);

    let tx = kit.create_administration(ADMINISTRATION1_NAME, &None, &empty_polygon(), author);
    assert_eq!(tx, Ok(()));

    let administration = kit.schema.administration(&author).unwrap();

    assert_eq!(administration.name, ADMINISTRATION1_NAME);
}

#[test]
fn reject_create_different_participants_with_same_keys() {
    let mut kit = create_test_kit();
    let author = key(3);

    let tx = kit.create_participant("John Doe", "john_doe@example.com", "1212", &None, "111", author);
    assert_eq!(tx, Ok(()));

    // using same key
    let tx =
        kit.create_participant("John Smith", "john_smith@example.com", "2121", &None, "222", author);
    assert_eq!(tx, Err(ExecutionError::Service(Error::ParticipantAlreadyExists)));

    let participant = kit.schema.participant(&author).unwrap();
    assert_eq!(participant.name, "John Doe");
    assert_eq!(participant.email, "john_doe@example.com");
    assert_eq!(participant.phone_number, "1212");
    assert_eq!(participant.pass_code, "111");
    assert_eq!(participant.history_len, 1);
}

#[test]
fn reject_create_different_administrations_with_same_keys() {
    let mut kit = create_test_kit();
    let author = key(4);

    let tx = kit.create_administration(ADMINISTRATION1_NAME, &None, &empty_polygon(), author);
    assert_eq!(tx, Ok(()));

    // using same key
    let tx =
        kit.create_administration(ADMINISTRATION2_NAME, &Some(author), &empty_polygon(), author);
    assert_eq!(tx, Err(ExecutionError::Service(Error::AdministrationAlreadyExists)));

    let administration = kit.schema.administration(&author).unwrap();
    assert_eq!(administration.name, ADMINISTRATION1_NAME);
    assert_eq!(administration.principal_key.0, None);
}

#[test]
fn select_administration_principals() {
    let mut kit = create_test_kit();
    let a1 = key(5);
    let a2 = key(6);

    let tx_a1 = kit.create_administration(ADMINISTRATION1_NAME, &None, &empty_polygon(), a1);
    let tx_a2 = kit.create_administration(ADMINISTRATION2_NAME, &Some(a1), &empty_polygon(), a2);

    assert_eq!(tx_a1, Ok(()));
    assert_eq!(tx_a2, Ok(()));

    let a1_principals = kit.schema.iter_principals(&a1).unwrap();
    let a2_principals = kit.schema.iter_principals(&a2).unwrap();

    assert_eq!(a1_principals.len(), 1);
    assert_eq!(a1_principals[0].addr, a1);
    assert_eq!(a2_principals.len(), 2);
    assert_eq!(a2_principals[0].addr, a2);
    assert_eq!(a2_principals[1].addr, a1);
}

#[test]
fn select_principals_elections() {
    let mut kit = create_test_kit();
    let a1 = key(7);
    let a2 = key(8);
    kit.create_administration(ADMINISTRATION1_NAME, &None, &empty_polygon(), a1).unwrap();
    kit.create_administration(ADMINISTRATION2_NAME, &Some(a1), &empty_polygon(), a2).unwrap();

    let start_date = kit.now();
    let finish_date = start_date.checked_add_seconds(3600).unwrap();
    kit.issue_election("first", &start_date, &finish_date, ELECTION1_OPTIONS, a1).unwrap();
    kit.issue_election("second", &start_date, &finish_date, ELECTION1_OPTIONS, a2).unwrap();

    let of_a1 = kit.schema.elections_of_administration_hierarchically(&a1).unwrap();
    let of_a2 = kit.schema.elections_of_administration_hierarchically(&a2).unwrap();

    assert_eq!(of_a1.len(), 1);
    assert_eq!(of_a1[0].name, "first");
    assert_eq!(of_a2.len(), 2);
    assert_eq!(of_a2[0].name, "second");
    assert_eq!(of_a2[1].name, "first");
}

#[test]
fn issue_election() {
    let mut kit = create_test_kit();
    let administration = key(9);

    kit.create_administration(ADMINISTRATION1_NAME, &None, &empty_polygon(), administration)
        .unwrap();

    let elections_before =
        PublicApi::active_elections(&kit.schema, KeyQuery { key: administration }, &kit.oracles)
            .unwrap();

    assert!(elections_before.is_empty());

    let start_date = kit.now();
    let finish_date = start_date.checked_add_seconds(3600).unwrap();

    let election_address = kit.schema.election_count() as i64;

    let create_election_tx = kit.issue_election(
        ELECTION1_NAME,
        &start_date,
        &finish_date,
        ELECTION1_OPTIONS,
        administration,
    );

    assert_eq!(create_election_tx, Ok(()));

    let elections_after =
        PublicApi::active_elections(&kit.schema, KeyQuery { key: administration }, &kit.oracles)
            .unwrap();

    assert_eq!(elections_after.len(), 1);

    let election = kit.schema.election(election_address).unwrap();

    assert_eq!(ELECTION1_NAME, election.name);
    assert_eq!(start_date, election.start_date);
    assert_eq!(finish_date, election.finish_date);
    assert_eq!(administration, election.issuer)
}

#[test]
fn reject_issuing_election_by_unknown_administration() {
    let mut kit = create_test_kit();

    let start_date = kit.now();
    let finish_date = start_date.checked_add_seconds(3600).unwrap();

    // Issuing election with random key
    let create_election_tx =
        kit.issue_election(ELECTION1_NAME, &start_date, &finish_date, ELECTION1_OPTIONS, key(10));

    assert_eq!(create_election_tx, Err(ExecutionError::Service(Error::AdministrationNotFound)));

    // Issuing election with participant key
    let participant_key = key(11);
    let tx = kit.create_participant(
        PARTICIPANT1_NAME,
        PARTICIPANT1_EMAIL,
        PARTICIPANT1_PHONE_NUMBER,
        &None,
        PARTICIPANT1_PASS_CODE,
        participant_key,
    );

    assert_eq!(tx, Ok(()));

    let create_election_tx = kit.issue_election(
        ELECTION1_NAME,
        &start_date,
        &finish_date,
        ELECTION1_OPTIONS,
        participant_key,
    );

    assert_eq!(create_election_tx, Err(ExecutionError::Service(Error::AdministrationNotFound)));
    assert_eq!(kit.schema.election_count(), 0);
}

#[test]
fn election_results_counting() {
    let mut kit = create_test_kit();
    let key_alice = key(12);
    let key_bob = key(13);
    let key_administration = key(14);

    kit.create_participant(
        PARTICIPANT1_NAME,
        PARTICIPANT1_EMAIL,
        PARTICIPANT1_PHONE_NUMBER,
        &None,
        PARTICIPANT1_PASS_CODE,
        key_alice,
    )
    .unwrap();

    kit.create_participant(
        PARTICIPANT2_NAME,
        PARTICIPANT2_EMAIL,
        PARTICIPANT2_PHONE_NUMBER,
        &None,
        PARTICIPANT2_PASS_CODE,
        key_bob,
    )
    .unwrap();

    kit.create_administration(ADMINISTRATION1_NAME, &None, &empty_polygon(), key_administration)
        .unwrap();

    let now = kit.now();

    let create_election_tx = kit.issue_election(
        ELECTION1_NAME,
        &now,
        &now.checked_add_seconds(3600).unwrap(),
        ELECTION1_OPTIONS,
        key_administration,
    );

    assert_eq!(create_election_tx, Ok(()));

    let elections =
        PublicApi::active_elections(&kit.schema, KeyQuery { key: key_administration }, &kit.oracles)
            .unwrap();

    assert_eq!(elections.len(), 1);

    let election = &elections[0];

    let options = &election.options;

    assert_eq!(options.len(), 3);

    let mut expected: HashMap<i32, u32> = options.iter().map(|op| (op.id, 0)).collect();

    let results =
        PublicApi::election_results(&kit.schema, KeyQuery { key: election.addr }).unwrap();

    assert_eq!(results, expected);

    let alice_position = options[0].id;
    let bob_position = options[2].id;

    let tx_vote_alice = kit.vote(election.addr, alice_position, key_alice);
    let tx_vote_bob = kit.vote(election.addr, bob_position, key_bob);

    assert_eq!(tx_vote_alice, Ok(()));
    assert_eq!(tx_vote_bob, Ok(()));

    *expected.get_mut(&bob_position).unwrap() += 1;
    *expected.get_mut(&alice_position).unwrap() += 1;

    let results =
        PublicApi::election_results(&kit.schema, KeyQuery { key: election.addr }).unwrap();

    assert_eq!(results, expected);
}
