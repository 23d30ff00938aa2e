use geo::algorithm::contains::Contains;

use crypto_election::crypto::{Address, Digest};
use crypto_election::model::geo::{Coordinate, LineString, Polygon};
use crypto_election::model::time::Timestamp;
use crypto_election::model::transactions::{CreateAdministration, CreateParticipant, SubmitLocation};
use crypto_election::model::wrappers::OptionalContainer;
use crypto_election::schema::ElectionSchema;
use crypto_election::service::ElectionService;
use crypto_election::tx_behavior::{Error, ExecutionError, Invocation};

fn point(x: f64, y: f64) -> Coordinate {
    Coordinate::new(x.to_bits(), y.to_bits())
}

fn ring(points: &[(f64, f64)]) -> LineString {
    LineString::new(points.iter().map(|(x, y)| point(*x, *y)).collect())
}

fn square(low: f64, high: f64) -> LineString {
    ring(&[(low, low), (high, low), (high, high), (low, high), (low, low)])
}

fn geo_ring(ring: &LineString) -> geo::LineString<f64> {
    ring.items
        .iter()
        .map(|p| geo::Coordinate { x: f64::from_bits(p.x), y: f64::from_bits(p.y) })
        .collect()
}

fn contains(area: &Polygon, position: &Coordinate) -> bool {
    let polygon =
        geo::Polygon::new(geo_ring(&area.exterior), area.interiors.iter().map(geo_ring).collect());
    polygon.contains(&geo::Point(geo::Coordinate {
        x: f64::from_bits(position.x),
        y: f64::from_bits(position.y),
    }))
}

fn containing(schema: &ElectionSchema, position: &Coordinate) -> Vec<bool> {
    schema.administrations().iter().map(|e| contains(&e.administration.area, position)).collect()
}

fn key(n: u64) -> Address {
    Digest::new(0, 0, 0, n)
}

fn call(caller: Address, n: u64) -> Invocation {
    Invocation {
        caller,
        transaction_hash: Some(Digest::new(1, 0, 0, n)),
        history_hash: Digest::new(2, 0, 0, n),
    }
}

/// A country from 0 to 100, a region from 10 to 60 in it with a lake from 20
/// to 30, a city from 40 to 50 in the region, and a participant.
fn map() -> ElectionSchema {
    let service = ElectionService;
    let mut schema = ElectionSchema::new();
    let mut add = |n: u64, name: &str, principal: Option<u64>, area: Polygon| {
        service
            .create_administration(
                &mut schema,
                &call(key(n), n),
                CreateAdministration {
                    name: name.to_owned(),
                    principal_key: OptionalContainer(principal.map(key)),
                    area,
                },
            )
            .unwrap();
    };
    add(30, "country", None, Polygon::new(square(0.0, 100.0), vec![]));
    add(20, "region", Some(30), Polygon::new(square(10.0, 60.0), vec![square(20.0, 30.0)]));
    add(10, "city", Some(20), Polygon::new(square(40.0, 50.0), vec![]));
    service
        .create_participant(
            &mut schema,
            &call(key(1), 1),
            CreateParticipant {
                name: "Alice".to_owned(),
                email: "alice@example.com".to_owned(),
                phone_number: "+380710000000".to_owned(),
                residence: OptionalContainer(None),
                pass_code: "AA000000".to_owned(),
            },
        )
        .unwrap();
    schema
}

fn submit(schema: &mut ElectionSchema, n: u64, x: f64, y: f64) -> Result<(), ExecutionError> {
    let arg = SubmitLocation { position: point(x, y), date: Timestamp::new(n as i64, 0), seed: n };
    let hits = containing(schema, &arg.position);
    ElectionService.submit_location(schema, &call(key(1), 100 + n), Timestamp::new(n as i64, 0), arg, &hits)
}

#[test]
fn the_most_specific_jurisdiction_is_assigned() {
    let mut schema = map();
    assert_eq!(submit(&mut schema, 1, 45.0, 45.0), Ok(()));
    assert_eq!(submit(&mut schema, 2, 55.0, 55.0), Ok(()));
    assert_eq!(submit(&mut schema, 3, 25.0, 25.0), Ok(()));
    assert_eq!(submit(&mut schema, 4, 90.0, 5.0), Ok(()));
    assert_eq!(submit(&mut schema, 5, 150.0, 5.0), Err(ExecutionError::Service(Error::BadLocation)));
    let places: Vec<Address> =
        schema.participant_location_history(&key(1)).iter().map(|v| v.location).collect();
    // In the city; in the region outside the city; in the lake, which is a
    // hole of the region, so only the country contains it; in the country alone.
    assert_eq!(places, vec![key(10), key(20), key(30), key(30)]);
    let times: Vec<i64> =
        schema.participant_location_history(&key(1)).iter().map(|v| v.time.seconds).collect();
    assert_eq!(times, vec![1, 2, 3, 4]);
    assert_eq!(schema.participant(&key(1)).unwrap().history_len, 5);
}

#[test]
fn an_area_without_points_contains_nothing() {
    let mut schema = ElectionSchema::new();
    ElectionService
        .create_administration(
            &mut schema,
            &call(key(30), 1),
            CreateAdministration {
                name: "nowhere".to_owned(),
                principal_key: OptionalContainer(None),
                area: Polygon::empty(),
            },
        )
        .unwrap();
    assert_eq!(containing(&schema, &point(0.0, 0.0)), vec![false]);
    assert_eq!(schema.locate(&containing(&schema, &point(0.0, 0.0))), None);
}
