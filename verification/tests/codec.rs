use evnt::event::{decode_event, encode_event};
use evnt::ids::{id_to_name, name_to_id};
use evnt::time::Timestamp;

/// The record of: name "ab", no description, 5 seconds and 6
/// nanoseconds past the epoch, id 7.
fn sample_record() -> Vec<u8> {
    let mut b = vec![2, 0, 0, 0, 0, 0, 0, 0, b'a', b'b', 0];
    b.extend_from_slice(&[5, 0, 0, 0, 0, 0, 0, 0]);
    b.extend_from_slice(&[6, 0, 0, 0]);
    b.extend_from_slice(&[7, 0, 0, 0, 0, 0, 0, 0, 0, 0, 0, 0, 0, 0, 0, 0]);
    b
}

#[test]
fn id_to_name_gives_exact_decimal_strings() {
    assert_eq!(id_to_name(0), "0");
    assert_eq!(id_to_name(7), "7");
    assert_eq!(id_to_name(1048576), "1048576");
    assert_eq!(
        id_to_name(u128::MAX),
        "340282366920938463463374607431768211455"
    );
}

#[test]
fn name_to_id_parses_decimal_names_only() {
    assert_eq!(name_to_id("0"), Some(0));
    assert_eq!(name_to_id("007"), Some(7));
    assert_eq!(
        name_to_id("340282366920938463463374607431768211455"),
        Some(u128::MAX)
    );
    assert_eq!(name_to_id("340282366920938463463374607431768211456"), None);
    assert_eq!(name_to_id("999999999999999999999999999999999999999"), None);
    assert_eq!(name_to_id(""), None);
    assert_eq!(name_to_id("12a"), None);
    assert_eq!(name_to_id("notes.txt"), None);
    assert_eq!(name_to_id("+7"), None);
    assert_eq!(name_to_id("-7"), None);
}

#[test]
fn id_name_mapping_round_trips() {
    for id in [0u128, 1, 9, 10, 41578912, u128::MAX] {
        assert_eq!(name_to_id(&id_to_name(id)), Some(id));
    }
}

#[test]
fn decode_reads_the_exact_record_layout() {
    let e = decode_event(&sample_record()).unwrap();
    assert_eq!(e.name, "ab");
    assert_eq!(e.description, None);
    assert_eq!(e.date_time, Timestamp { secs: 5, nanos: 6 });
    assert_eq!(e.id(), 7);
}

#[test]
fn encode_emits_the_exact_record_layout() {
    let e = decode_event(&sample_record()).unwrap();
    assert_eq!(encode_event(&e), sample_record());
}

#[test]
fn description_and_negative_seconds_round_trip() {
    let mut b = vec![1, 0, 0, 0, 0, 0, 0, 0, b'n'];
    b.push(1);
    b.extend_from_slice(&[2, 0, 0, 0, 0, 0, 0, 0, 0xc3, 0xa9]);
    b.extend_from_slice(&[0xff; 8]);
    b.extend_from_slice(&[0, 0, 0, 0]);
    b.extend_from_slice(&[9; 16]);
    let e = decode_event(&b).unwrap();
    assert_eq!(e.name, "n");
    assert_eq!(e.description.as_deref(), Some("é"));
    assert_eq!(e.date_time.secs, -1);
    assert_eq!(e.date_time.nanos, 0);
    assert_eq!(encode_event(&e), b);
}

#[test]
fn decode_rejects_malformed_records() {
    assert!(decode_event(&[]).is_none());
    assert!(decode_event(&[2, 0, 0, 0]).is_none());

    let good = sample_record();

    let mut truncated = good.clone();
    truncated.pop();
    assert!(decode_event(&truncated).is_none());

    let mut trailing = good.clone();
    trailing.push(0);
    assert!(decode_event(&trailing).is_none());

    let mut bad_tag = good.clone();
    bad_tag[10] = 2;
    assert!(decode_event(&bad_tag).is_none());

    let mut bad_utf8 = good;
    bad_utf8[8] = 0xc3;
    bad_utf8[9] = 0x28;
    assert!(decode_event(&bad_utf8).is_none());
}
