use gps_trip::fixed::parse_fixed;
use gps_trip::segment::{collect_track_points, coordinate, parse_gpx, Coordinate, GpsPoint};
use gps_trip::xml::{RawAttribute, XmlEvent};

#[test]
fn decimal_degrees_become_fixed_point() {
    assert_eq!(parse_fixed(b"37.7749"), Some(377_749_000));
    assert_eq!(parse_fixed(b"-122.4194"), Some(-1_224_194_000));
    assert_eq!(parse_fixed(b"+0.0000001"), Some(1));
    assert_eq!(parse_fixed(b"20.000002"), Some(200_000_020));
    assert_eq!(parse_fixed(b"5"), Some(50_000_000));
    assert_eq!(parse_fixed(b"5."), Some(50_000_000));
    assert_eq!(parse_fixed(b".5"), Some(5_000_000));
    assert_eq!(parse_fixed(b"-0"), Some(0));
}

#[test]
fn eighth_decimal_rounds_half_up_in_magnitude() {
    assert_eq!(parse_fixed(b"1.00000004"), Some(10_000_000));
    assert_eq!(parse_fixed(b"1.00000005"), Some(10_000_001));
    assert_eq!(parse_fixed(b"-1.00000005"), Some(-10_000_001));
    assert_eq!(parse_fixed(b"0.99999999"), Some(10_000_000));
    assert_eq!(parse_fixed(b"1.000000049999"), Some(10_000_000));
}

#[test]
fn text_that_is_no_decimal_is_refused() {
    assert_eq!(parse_fixed(b""), None);
    assert_eq!(parse_fixed(b"-"), None);
    assert_eq!(parse_fixed(b"."), None);
    assert_eq!(parse_fixed(b"-."), None);
    assert_eq!(parse_fixed(b"1e5"), None);
    assert_eq!(parse_fixed(b"1.2.3"), None);
    assert_eq!(parse_fixed(b" 1"), None);
    assert_eq!(parse_fixed(b"1 "), None);
    assert_eq!(parse_fixed(b"--1"), None);
    assert_eq!(parse_fixed(b"nan"), None);
    assert_eq!(parse_fixed(b"12a.5"), None);
    assert_eq!(parse_fixed(b"12.5a"), None);
}

#[test]
fn degrees_that_do_not_fit_are_refused() {
    assert_eq!(parse_fixed(b"922337203685.4775807"), Some(i64::MAX));
    assert_eq!(parse_fixed(b"-922337203685.4775807"), Some(-i64::MAX));
    assert_eq!(parse_fixed(b"922337203685.4775808"), None);
    assert_eq!(parse_fixed(b"922337203686"), None);
    assert_eq!(parse_fixed(b"99999999999999999999999999999999"), None);
    assert_eq!(parse_fixed(b"000000000000000000000000000001.5"), Some(15_000_000));
}

#[test]
fn test_valid_gpx_file() {
    let gpx_data = r#"
        <gpx>
            <trk>
                <trkseg>
                    <trkpt lat="37.7749" lon="-122.4194">
                        <time>2024-12-12T10:00:14Z</time>
                    </trkpt>
                </trkseg>
            </trk>
        </gpx>
    "#;
    let result = parse_gpx(gpx_data);
    assert_eq!(result.len(), 1);
    assert_eq!(result[0].lat, 377_749_000);
    assert_eq!(result[0].lon, -1_224_194_000);
    assert_eq!(result[0]._time, 0);
}

#[test]
fn test_gpx_file_without_points() {
    let gpx_data = r#"<gpx><trk><trkseg></trkseg></trk></gpx>"#;
    assert!(parse_gpx(gpx_data).is_empty());
    assert!(parse_gpx("").is_empty());
}

#[test]
fn points_come_in_document_order_and_bad_ones_are_skipped() {
    let gpx_data = [
        "<gpx><trk><trkseg>",
        "<trkpt lat=\"1.5\" lon=\"2.5\"></trkpt>",
        "<trkpt lat=\"north\" lon=\"2.5\"></trkpt>",
        "<trkpt lon=\"2.5\"></trkpt>",
        "<trkpt lat=\"9\" lon=\"8\"/>",
        "<wpt lat=\"4\" lon=\"5\"></wpt>",
        "<trkpt lon=\"-3\" name=\"x\" lat=\"-4\"></trkpt>",
        "</trkseg></trk></gpx>",
    ]
    .concat();
    assert_eq!(
        parse_gpx(&gpx_data),
        vec![
            GpsPoint { lat: 15_000_000, lon: 25_000_000, _time: 0 },
            GpsPoint { lat: -40_000_000, lon: -30_000_000, _time: 0 },
        ]
    );
}

#[test]
fn reading_stops_at_ill_formed_xml() {
    let gpx_data = [
        "<gpx><trkpt lat=\"1\" lon=\"2\"></trkpt>",
        "<a></b>",
        "<trkpt lat=\"3\" lon=\"4\"></trkpt></gpx>",
    ]
    .concat();
    assert_eq!(parse_gpx(&gpx_data), vec![GpsPoint { lat: 10_000_000, lon: 20_000_000, _time: 0 }]);
}

fn attribute(key: &str, value: &str) -> RawAttribute {
    RawAttribute { key: key.as_bytes().to_vec(), value: value.as_bytes().to_vec() }
}

#[test]
fn first_attribute_with_the_key_decides() {
    let attributes = vec![attribute("lon", "7"), attribute("lat", "x"), attribute("lat", "3")];
    assert_eq!(coordinate(&attributes, Coordinate::Latitude), None);
    assert_eq!(coordinate(&attributes, Coordinate::Longitude), Some(70_000_000));
    assert_eq!(coordinate(&Vec::new(), Coordinate::Latitude), None);
}

#[test]
fn scanner_keeps_coordinates_until_the_next_start() {
    let start = |lat: &str, lon: &str| XmlEvent::Start {
        name: b"trkpt".to_vec(),
        attributes: vec![attribute("lat", lat), attribute("lon", lon)],
    };
    let end = || XmlEvent::End { name: b"trkpt".to_vec() };
    let events = vec![
        end(),
        start("1", "2"),
        XmlEvent::Other,
        XmlEvent::Start { name: b"time".to_vec(), attributes: Vec::new() },
        XmlEvent::End { name: b"time".to_vec() },
        end(),
        end(),
        start("1", "east"),
        end(),
    ];
    assert_eq!(
        collect_track_points(&events),
        vec![
            GpsPoint { lat: 10_000_000, lon: 20_000_000, _time: 0 },
            GpsPoint { lat: 10_000_000, lon: 20_000_000, _time: 0 },
        ]
    );
}
