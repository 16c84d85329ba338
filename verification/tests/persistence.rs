use std::time::{Duration, UNIX_EPOCH};

use kvdis::dictionary::{Dictionary, Entry};
use kvdis::errors::{DictionaryError, SerializationError};
use kvdis::persistence::Serializer;

const NANOS_PER_SEC: u64 = 1_000_000_000;

#[test]
fn csv_str() {
    let mut dict = Dictionary::new();
    dict.set(
        "enjoy".to_string(),
        Entry { value: "yourself".to_string(), expiration: None },
    );

    // a fixed instant 15 seconds past a round second, in nanoseconds
    let time: u64 = 1_900_000_000 * NANOS_PER_SEC + 15 * NANOS_PER_SEC;
    dict.set(
        "liar".to_string(),
        Entry { value: "pants_on_fire".to_string(), expiration: Some(time) },
    );
    let s = Serializer::new().get_as_csv(&dict);

    let time_str =
        humantime::format_rfc3339(UNIX_EPOCH + Duration::from_nanos(time)).to_string();
    assert!(s.contains("enjoy,yourself\n"));
    assert!(s.contains("liar,pants_on_fire,{}\n".to_string().replace("{}", &time_str).as_str()));
}

#[test]
fn csv_to_map() {
    let mut dict = Dictionary::new();
    let csv = "1,one\n2,two\n3,three";

    let sd = Serializer::new();
    sd.set_from_csv(&mut dict, csv).unwrap();

    assert_eq!(dict.get("1").unwrap(), "one".to_string());
    assert_eq!(dict.get("2").unwrap(), "two".to_string());
    assert_eq!(dict.get("3").unwrap(), "three".to_string());
}

#[test]
fn csv_to_map_with_expiration_valid() {
    let mut dict = Dictionary::new();

    // NOTE: January 1st 2100, 12 o'clock
    let csv = "1,one\n2,two\n3,three,2100-01-01T00:00:00Z";

    let sd = Serializer::new();
    sd.set_from_csv(&mut dict, csv).unwrap();

    assert_eq!(dict.get("1").unwrap(), "one".to_string());
    assert_eq!(dict.get("2").unwrap(), "two".to_string());
    assert_eq!(dict.get("3").unwrap(), "three".to_string());
    assert_eq!(dict.key_exists("3").to_string(), "true");
}

#[test]
fn csv_to_map_with_expiration_invalid() {
    let mut dict = Dictionary::new();

    // NOTE: January 1st 2001, 12 o'clock
    let csv = "1,one\n2,two\n3,three,2001-01-01T00:00:00Z";

    let sd = Serializer::new();
    sd.set_from_csv(&mut dict, csv).unwrap();

    assert_eq!(dict.get("1").unwrap(), "one".to_string());
    assert_eq!(dict.get("2").unwrap(), "two".to_string());
    assert_eq!(dict.get("3"), Err(DictionaryError::IsExpired));
    assert_eq!(dict.key_exists("3").to_string(), "false");
}

#[test]
fn csv_to_map_expiration_corrupted() {
    let mut dict = Dictionary::new();

    // NOTE: Corrupted date
    let csv = "1,one\n2,two\n3,three,01-91-01T70:00:00Z";

    let sd = Serializer::new();
    assert_eq!(sd.set_from_csv(&mut dict, csv), Err(SerializationError::TimestampRead));
}

#[test]
fn csv_missing_value() {
    let mut dict = Dictionary::new();

    let sd = Serializer::new();
    assert_eq!(
        sd.set_from_csv(&mut dict, "a,1\njustakey"),
        Err(SerializationError::ValueRead)
    );
    // the failure came partway: the first line had already been inserted
    assert_eq!(dict.get("a").unwrap(), "1".to_string());
}

#[test]
fn restore_replaces_prior_contents() {
    let mut dict = Dictionary::new();
    dict.set("old".to_string(), Entry { value: "gone".to_string(), expiration: None });

    let sd = Serializer::new();
    sd.set_from_csv(&mut dict, "fresh,1").unwrap();
    assert_eq!(dict.get("old"), Err(DictionaryError::DoesNotExist));
    assert_eq!(dict.get("fresh").unwrap(), "1".to_string());
}

#[test]
fn snapshot_round_trip() {
    let mut dict = Dictionary::new();
    let t: u64 = 1_950_000_000 * NANOS_PER_SEC + 123_456_789;
    dict.set("alpha".to_string(), Entry { value: "1".to_string(), expiration: None });
    dict.set("beta".to_string(), Entry { value: "two".to_string(), expiration: Some(t) });
    dict.set("gamma".to_string(), Entry { value: "".to_string(), expiration: None });

    let sd = Serializer::new();
    let snapshot = sd.get_as_csv(&dict);
    dict.clear();
    assert_eq!(dict.key_exists("alpha"), false);

    sd.set_from_csv(&mut dict, snapshot.as_str()).unwrap();
    assert_eq!(dict.get("alpha").unwrap(), "1".to_string());
    assert_eq!(dict.get("gamma").unwrap(), "".to_string());
    // the expiration round-tripped to the nanosecond
    assert_eq!(dict.get_at("beta", t - 1), Ok("two".to_string()));
    assert_eq!(dict.get_at("beta", t), Err(DictionaryError::IsExpired));

    // a second snapshot renders the same text
    assert_eq!(sd.get_as_csv(&dict), snapshot);
}

#[test]
fn csv_with_crlf_lines() {
    let mut dict = Dictionary::new();

    let sd = Serializer::new();
    sd.set_from_csv(&mut dict, "a,1\r\nb,2\r\n").unwrap();
    assert_eq!(dict.get("a").unwrap(), "1".to_string());
    assert_eq!(dict.get("b").unwrap(), "2".to_string());
}

#[test]
fn csv_extra_fields_ignored() {
    let mut dict = Dictionary::new();

    let sd = Serializer::new();
    sd.set_from_csv(&mut dict, "a,1,2100-01-01T00:00:00Z,junk").unwrap();
    assert_eq!(dict.get("a").unwrap(), "1".to_string());
    assert_eq!(dict.key_exists("a"), true);
}

#[test]
fn serialization_error_messages() {
    assert_eq!(SerializationError::KeyRead.to_string(), "Key could not be read.");
    assert_eq!(SerializationError::ValueRead.to_string(), "Value could not be read.");
    assert_eq!(
        SerializationError::TimestampRead.to_string(),
        "Expiration timestamp could not be read."
    );
    assert_eq!(SerializationError::IORead.to_string(), "IO read failed.");
    assert_eq!(SerializationError::IOWrite.to_string(), "IO write failed.");
    assert_eq!(
        DictionaryError::IOError(SerializationError::IORead).to_string(),
        "IO read failed."
    );
    assert_eq!(
        DictionaryError::from(SerializationError::IOWrite),
        DictionaryError::IOError(SerializationError::IOWrite)
    );
}
