use gps_trip::air::{ConstraintVariant, GpsAir, Violation};
use gps_trip::field::MODULUS;
use gps_trip::gps::PublicInputs;
use gps_trip::normalize::{normalize, TripError};
use gps_trip::options::{FieldExtension, ProofOptions};
use gps_trip::segment::{segment, GpsPoint, SCALE};
use gps_trip::trace::{build, build_gps_trace_from_gpx, extract, Trace};

fn fixed(degrees: f64) -> i64 {
    (degrees * SCALE as f64).round() as i64
}

fn point(lat: f64, lon: f64, time: u64) -> GpsPoint {
    GpsPoint { lat: fixed(lat), lon: fixed(lon), _time: time }
}

fn options() -> ProofOptions {
    ProofOptions::new(32, 16, 0, FieldExtension::Base, 8, 127)
}

#[test]
fn three_waypoints_pad_to_four_rows() {
    let points = vec![point(10.0, 20.0, 0), point(10.0, 20.000001, 5), point(10.0, 20.000002, 11)];
    let trace = build_gps_trace_from_gpx(&points).unwrap();
    assert_eq!(trace.width(), 4);
    assert_eq!(trace.length(), 4);
    assert_eq!(trace.columns()[0], vec![100_000_000, 100_000_000, 100_000_000, 100_000_000]);
    assert_eq!(trace.columns()[1], vec![200_000_000, 200_000_010, 200_000_020, 200_000_020]);
    assert_eq!(trace.columns()[2], vec![0, 5, 11, 11]);
    assert_eq!(trace.columns()[3], vec![0, 5, 6, 0]);

    let inputs = extract(&trace);
    assert_eq!(inputs.lat, 100_000_000);
    assert_eq!(inputs.lon, 200_000_000);
    assert_eq!(inputs.next_lat, 100_000_000);
    assert_eq!(inputs.next_lon, 200_000_020);
    assert_eq!(inputs.time, 0);
    assert_eq!(inputs.next_time, 11);

    let air = GpsAir::new(trace.info(), inputs, options()).unwrap();
    assert_eq!(air.check(&trace), Ok(()));
}

#[test]
fn empty_trip_is_refused() {
    assert_eq!(normalize(&Vec::new()).unwrap_err(), TripError::EmptyTrip);
    assert!(matches!(build_gps_trace_from_gpx(&Vec::new()), Err(TripError::EmptyTrip)));
}

#[test]
fn one_waypoint_starts_where_it_ends() {
    let trace = build_gps_trace_from_gpx(&vec![point(-33.5, 151.25, 1_700_000_000)]).unwrap();
    assert_eq!(trace.length(), 1);
    let inputs = extract(&trace);
    assert_eq!(inputs.lat, MODULUS - 335_000_000);
    assert_eq!(inputs.lat, inputs.next_lat);
    assert_eq!(inputs.lon, inputs.next_lon);
    assert_eq!(inputs.time, inputs.next_time);
    let air = GpsAir::new(trace.info(), inputs, options()).unwrap();
    assert_eq!(air.check(&trace), Ok(()));
}

#[test]
fn power_of_two_trip_gets_no_padding() {
    let points: Vec<GpsPoint> = (0..8).map(|i| point(1.0, 2.0, 10 * i)).collect();
    let steps = normalize(&points).unwrap();
    assert_eq!(steps.len(), 8);
    let more: Vec<GpsPoint> = (0..9).map(|i| point(1.0, 2.0, 10 * i)).collect();
    let steps = normalize(&more).unwrap();
    assert_eq!(steps.len(), 16);
    let trace = build(&steps);
    for row in 9..16 {
        assert_eq!(trace.get(3, row), 0);
        assert_eq!(trace.get(2, row), 80);
    }
}

#[test]
fn segments_cover_the_trip() {
    let points: Vec<GpsPoint> = (0..10).map(|i| point(0.0, 0.0, i)).collect();
    let chunks = segment(&points, 4);
    assert_eq!(chunks.iter().map(|c| c.len()).collect::<Vec<_>>(), vec![4, 4, 2]);
    assert_eq!(chunks.concat(), points);
    assert!(segment(&Vec::new(), 3).is_empty());
    assert_eq!(segment(&points, 10).len(), 1);
    assert_eq!(segment(&points, 1).len(), 10);
}

#[test]
fn tampered_trace_is_caught() {
    let good = vec![vec![1, 1], vec![2, 2], vec![10, 15], vec![0, 5]];
    let trace = Trace::init(good).unwrap();
    let air = GpsAir::new(trace.info(), extract(&trace), options()).unwrap();
    assert_eq!(air.check(&trace), Ok(()));

    let bad = Trace::init(vec![vec![1, 1], vec![2, 2], vec![10, 15], vec![0, 4]]).unwrap();
    assert_eq!(air.check(&bad), Err(Violation::Transition(0)));

    let wrong = PublicInputs { next_lon: 3, ..extract(&trace) };
    let air = GpsAir::new(trace.info(), wrong, options()).unwrap();
    assert_eq!(air.check(&trace), Err(Violation::Assertion(3)));
    assert_eq!(air.variant(), ConstraintVariant::TimeDeltaOnly);
}
