use std::io::Write;

use osm_changesets::replication::{
    changeset_diff_url, decode_changeset_diff, parse_sequence_file, parse_state_sequence,
    sequence_file_content, state_url, StateError,
};
use osm_changesets::text::IntParseError;

const STATE: &str = "#Sat Jun 01 10:21:02 UTC 2024\nsequenceNumber=6543210\ntimestamp=2024-06-01T10\\:20\\:58Z\n";

#[test]
fn state_address() {
    assert_eq!(state_url(), "https://planet.openstreetmap.org/replication/minute/state.txt");
}

#[test]
fn state_names_sequence_number() {
    assert_eq!(parse_state_sequence(STATE), Ok(6543210));
    assert_eq!(parse_state_sequence("sequenceNumber=17\r\ntimestamp=x\r\n"), Ok(17));
    assert_eq!(parse_state_sequence("sequenceNumber=17"), Ok(17));
    assert_eq!(parse_state_sequence("sequenceNumber=12=3\n"), Ok(12));
    assert_eq!(parse_state_sequence("a=1\nsequenceNumber=5\nsequenceNumber=6\n"), Ok(5));
}

#[test]
fn state_errors() {
    assert_eq!(parse_state_sequence(""), Err(StateError::NotFound));
    assert_eq!(parse_state_sequence("timestamp=1\n sequenceNumber=5\n"), Err(StateError::NotFound));
    assert_eq!(
        parse_state_sequence("sequenceNumber=abc\n"),
        Err(StateError::Invalid(IntParseError::InvalidDigit))
    );
    assert_eq!(parse_state_sequence("sequenceNumber=\n"), Err(StateError::Invalid(IntParseError::Empty)));
    // A `\r` is only dropped before a `\n`.
    assert_eq!(
        parse_state_sequence("sequenceNumber=5\r"),
        Err(StateError::Invalid(IntParseError::InvalidDigit))
    );
}

#[test]
fn progress_file_round_trip() {
    for id in [0, 1, 6543210, -3, i32::MAX, i32::MIN] {
        let content = sequence_file_content(id);
        assert_eq!(content, id.to_string());
        assert_eq!(parse_sequence_file(&content), Ok(id));
    }
}

#[test]
fn progress_file_is_trimmed() {
    assert_eq!(parse_sequence_file("  6543210\n"), Ok(6543210));
    assert_eq!(parse_sequence_file("0"), Ok(0));
    assert_eq!(parse_sequence_file(" \n"), Err(IntParseError::Empty));
    assert_eq!(parse_sequence_file("12 3"), Err(IntParseError::InvalidDigit));
}

#[test]
fn diff_addresses() {
    assert_eq!(
        changeset_diff_url(6543210),
        "https://planet.openstreetmap.org/replication/minute/006/543/210.osc.gz"
    );
    assert_eq!(changeset_diff_url(0), "https://planet.openstreetmap.org/replication/minute/000/000/000.osc.gz");
    // Ten digits: the last one falls off, as with slicing the padded text.
    assert_eq!(
        changeset_diff_url(1234567890),
        "https://planet.openstreetmap.org/replication/minute/123/456/789.osc.gz"
    );
    assert_eq!(changeset_diff_url(-5), "https://planet.openstreetmap.org/replication/minute/-00/000/005.osc.gz");
}

#[test]
fn diff_unpacks() {
    let text = "<osmChange version=\"0.6\"><create/></osmChange>";
    let mut enc = flate2::write::GzEncoder::new(Vec::new(), flate2::Compression::default());
    enc.write_all(text.as_bytes()).unwrap();
    let packed = enc.finish().unwrap();
    let unpacked = decode_changeset_diff(&packed).unwrap();
    assert_eq!(unpacked, text);
}

#[test]
fn diff_rejects_garbage() {
    assert!(decode_changeset_diff(b"not gzip at all").is_err());
    let mut enc = flate2::write::GzEncoder::new(Vec::new(), flate2::Compression::default());
    enc.write_all(&[0xff, 0xfe, 0x00]).unwrap();
    let packed = enc.finish().unwrap();
    assert!(decode_changeset_diff(&packed).is_err());
}

#[test]
fn diff_addresses_distinct_below_a_billion() {
    let ids = [0, 1, 999, 1000, 6543210, 999_999_999];
    for &a in &ids {
        for &b in &ids {
            assert_eq!(a == b, changeset_diff_url(a) == changeset_diff_url(b));
        }
    }
    // From ten digits on, the last digit is cut off.
    assert_eq!(changeset_diff_url(1234567890), changeset_diff_url(1234567891));
}
