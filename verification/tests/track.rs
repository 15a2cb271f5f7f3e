use gpx_stats::ParseError;
use gpx_stats::extract::{TrackPoint, extract};
use gpx_stats::fixed::Fixed;
use gpx_stats::reduce::reduce;
use gpx_stats::summarize;
use gpx_stats::tstamp::Timestamp;

fn point(lat: i64, lon: i64, ele: i64, seconds: i64, offset_seconds: i32) -> TrackPoint {
    TrackPoint {
        latitude: Fixed { nanos: lat },
        longitude: Fixed { nanos: lon },
        elevation: Fixed { nanos: ele },
        time: Timestamp { seconds, offset_seconds },
    }
}

#[test]
fn extracts_one_point_with_all_fields() {
    let doc = "<gpx><trk><trkseg>\
        <trkpt lat=\"12.5\" lon=\"-3.25\">\
        <ele>100.0</ele>\
        <time>2021-06-01T10:00:00+00:00</time>\
        </trkpt>\
        </trkseg></trk></gpx>";
    let pts = extract(doc).unwrap();
    assert_eq!(pts.len(), 1);
    assert_eq!(pts[0].latitude.nanos, 12_500_000_000);
    assert_eq!(pts[0].longitude.nanos, -3_250_000_000);
    assert_eq!(pts[0].elevation.nanos, 100_000_000_000);
    assert_eq!(pts[0].time.seconds, 1_622_541_600);
    assert_eq!(pts[0].time.offset_seconds, 0);
}

#[test]
fn extracts_points_in_document_order() {
    let doc = "<gpx><trk><trkseg>\
        <trkpt lat=\"1.0\" lon=\"2.0\"><ele>10</ele><time>2021-06-01T10:00:00+00:00</time></trkpt>\
        <trkpt lat=\"3.0\" lon=\"4.0\"><ele>20</ele><time>2021-06-01T10:00:05+00:00</time></trkpt>\
        <trkpt lat=\"5.0\" lon=\"6.0\"><ele>30</ele><time>2021-06-01T10:00:10+00:00</time></trkpt>\
        </trkseg></trk></gpx>";
    let pts = extract(doc).unwrap();
    assert_eq!(pts.len(), 3);
    assert_eq!(pts[0].latitude.nanos, 1_000_000_000);
    assert_eq!(pts[1].latitude.nanos, 3_000_000_000);
    assert_eq!(pts[2].latitude.nanos, 5_000_000_000);
    assert_eq!(pts[2].time.seconds, pts[0].time.seconds + 10);
}

#[test]
fn timestamp_offset_is_kept_and_normalized_to_utc_seconds() {
    let doc = "<gpx><trkpt lat=\"0.0\" lon=\"0.0\"><ele>1</ele>\
        <time>2021-06-01T10:00:00+02:00</time></trkpt></gpx>";
    let pts = extract(doc).unwrap();
    assert_eq!(pts[0].time.seconds, 1_622_534_400);
    assert_eq!(pts[0].time.offset_seconds, 7_200);
}

#[test]
fn missing_time_child_is_invalid_timestamp() {
    let doc = "<gpx><trkpt lat=\"1.0\" lon=\"2.0\"><ele>10</ele></trkpt></gpx>";
    assert_eq!(extract(doc), Err(ParseError::InvalidTimestamp));
}

#[test]
fn non_numeric_first_attribute_is_invalid_coordinate() {
    let doc = "<gpx><trkpt lat=\"abc\" lon=\"2.0\"><ele>10</ele>\
        <time>2021-06-01T10:00:00+00:00</time></trkpt></gpx>";
    assert_eq!(extract(doc), Err(ParseError::MissingOrInvalidCoordinate));
}

#[test]
fn missing_second_attribute_is_invalid_coordinate() {
    let doc = "<gpx><trkpt lat=\"1.0\"><ele>10</ele>\
        <time>2021-06-01T10:00:00+00:00</time></trkpt></gpx>";
    assert_eq!(extract(doc), Err(ParseError::MissingOrInvalidCoordinate));
}

#[test]
fn non_numeric_elevation_is_invalid_elevation() {
    let doc = "<gpx><trkpt lat=\"1.0\" lon=\"2.0\"><ele>high</ele>\
        <time>2021-06-01T10:00:00+00:00</time></trkpt></gpx>";
    assert_eq!(extract(doc), Err(ParseError::InvalidElevation));
}

#[test]
fn bad_timestamp_text_is_invalid_timestamp() {
    let doc = "<gpx><trkpt lat=\"1.0\" lon=\"2.0\"><ele>10</ele>\
        <time>yesterday at noon</time></trkpt></gpx>";
    assert_eq!(extract(doc), Err(ParseError::InvalidTimestamp));
}

#[test]
fn mismatched_tags_are_malformed_document() {
    let doc = "<gpx><trk></gpx>";
    assert_eq!(extract(doc), Err(ParseError::MalformedDocument));
}

#[test]
fn empty_document_has_no_points() {
    assert_eq!(extract("").unwrap().len(), 0);
    assert_eq!(extract("<gpx></gpx>").unwrap().len(), 0);
}

#[test]
fn document_level_time_before_any_point_is_ignored() {
    let doc = "<gpx><metadata><time>2021-06-01T00:00:00+00:00</time></metadata>\
        <trkpt lat=\"1.0\" lon=\"2.0\"><ele>10</ele>\
        <time>2021-06-01T10:00:00+00:00</time></trkpt></gpx>";
    let pts = extract(doc).unwrap();
    assert_eq!(pts.len(), 1);
    assert_eq!(pts[0].time.seconds, 1_622_541_600);
}

#[test]
fn extract_twice_yields_equal_sequences() {
    let doc = "<gpx><trkpt lat=\"12.5\" lon=\"-3.25\"><ele>100.0</ele>\
        <time>2021-06-01T10:00:00+00:00</time></trkpt></gpx>";
    let first = extract(doc);
    let second = extract(doc);
    assert_eq!(first, second);
}

#[test]
fn reduce_finds_min_and_max_elevation() {
    let pts = vec![
        point(0, 0, 10_000_000_000, 0, 0),
        point(0, 0, 250_000_000_000, 0, 0),
        point(0, 0, 3_500_000_000, 0, 0),
    ];
    let s = reduce(&pts).unwrap();
    assert_eq!(s.min_elevation.nanos, 3_500_000_000);
    assert_eq!(s.max_elevation.nanos, 250_000_000_000);
}

#[test]
fn reduce_covers_all_six_extremes() {
    let pts = vec![
        point(-10_000_000_000, 5_000_000_000, 100, 0, 0),
        point(-20_000_000_000, 7_000_000_000, -300, 0, 0),
        point(-15_000_000_000, 6_000_000_000, 200, 0, 0),
    ];
    let s = reduce(&pts).unwrap();
    assert_eq!(s.min_latitude.nanos, -20_000_000_000);
    assert_eq!(s.max_latitude.nanos, -10_000_000_000);
    assert_eq!(s.min_longitude.nanos, 5_000_000_000);
    assert_eq!(s.max_longitude.nanos, 7_000_000_000);
    assert_eq!(s.min_elevation.nanos, -300);
    assert_eq!(s.max_elevation.nanos, 200);
}

#[test]
fn reduce_of_empty_track_is_none() {
    let pts: Vec<TrackPoint> = Vec::new();
    assert!(reduce(&pts).is_none());
}

#[test]
fn reduce_does_not_depend_on_order() {
    let a = vec![
        point(1, 2, 3, 4, 0),
        point(-5, 60, -7, 8, 0),
        point(9, -10, 11, 12, 0),
    ];
    let b = vec![a[2], a[0], a[1]];
    assert_eq!(reduce(&a), reduce(&b));
}

#[test]
fn summarize_runs_the_whole_pipeline() {
    let doc = "<gpx><trk><trkseg>\
        <trkpt lat=\"1.5\" lon=\"2.0\"><ele>10.0</ele><time>2021-06-01T10:00:00+00:00</time></trkpt>\
        <trkpt lat=\"-1.5\" lon=\"4.0\"><ele>3.5</ele><time>2021-06-01T10:00:05+00:00</time></trkpt>\
        </trkseg></trk></gpx>";
    let s = summarize(doc).unwrap().unwrap();
    assert_eq!(s.min_elevation.nanos, 3_500_000_000);
    assert_eq!(s.max_elevation.nanos, 10_000_000_000);
    assert_eq!(s.min_latitude.nanos, -1_500_000_000);
    assert_eq!(s.max_latitude.nanos, 1_500_000_000);
    assert_eq!(s.min_longitude.nanos, 2_000_000_000);
    assert_eq!(s.max_longitude.nanos, 4_000_000_000);
}

#[test]
fn summarize_of_empty_track_is_ok_none() {
    assert_eq!(summarize("<gpx></gpx>"), Ok(None));
}
