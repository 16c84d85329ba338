use kvdis::command::{Command, CommandResult};
use kvdis::dictionary::{Dictionary, Entry};
use kvdis::errors::DictionaryError;

const NANOS_PER_SEC: u64 = 1_000_000_000;

#[test]
fn get_set() {
    let mut dict = Dictionary::new();

    let set_command = "SET metanoia 19".to_string().parse::<Command>().unwrap();
    let get_command = "GET metanoia".to_string().parse::<Command>().unwrap();

    assert_eq!(dict.run_headless(set_command), Ok(CommandResult::Put));
    let got = dict.run_headless(get_command);
    assert_eq!(got, Ok(CommandResult::Get("19".to_string())));
}

#[test]
fn get_set_expired() {
    let mut dict = Dictionary::new();

    let set_command = "SET metanoia 19".to_string().parse::<Command>().unwrap();
    // expire in 1 second
    let expire_command = "EXPIRE metanoia 1s".parse::<Command>().unwrap();
    let get_command = "GET metanoia".to_string().parse::<Command>().unwrap();

    let t0: u64 = 1_800_000_000 * NANOS_PER_SEC;
    dict.run_at(set_command, t0).unwrap();
    dict.run_at(expire_command, t0).unwrap();

    // Not expired yet; should be Some
    let got = dict.run_at(get_command, t0);
    assert_eq!(got, Ok(CommandResult::Get("19".to_string())));

    // 2 seconds later
    let get_command = "GET metanoia".to_string().parse::<Command>().unwrap();
    let got = dict.run_at(get_command, t0 + 2 * NANOS_PER_SEC);
    assert_eq!(got, Err(DictionaryError::IsExpired));
}

#[test]
fn get_doesnt_exist() {
    let mut dict = Dictionary::new();

    let get_command = "GET metanoia".to_string().parse::<Command>().unwrap();
    let got = dict.run_headless(get_command);
    assert_eq!(got, Err(DictionaryError::DoesNotExist));
}

#[test]
fn dictionary_incr() {
    let mut dict = Dictionary::new();

    let set_command = "SET something 5".parse::<Command>().unwrap();
    let incr_command = "INCR something".parse::<Command>().unwrap();

    dict.run_headless(set_command).unwrap();

    // Check that it is indeed that command
    assert_eq!(dict.run_headless(incr_command), Ok(CommandResult::Incr));

    // Check that it worked (5+1 = 6)
    let get_command = "GET something".parse::<Command>().unwrap();
    assert_eq!(dict.run_headless(get_command), Ok(CommandResult::Get("6".to_string())));
}

#[test]
fn dictionary_decr() {
    let mut dict = Dictionary::new();

    let set_command = "SET something -5".parse::<Command>().unwrap();
    let decr_command = "DECR something".parse::<Command>().unwrap();

    dict.run_headless(set_command).unwrap();

    // Check that it is indeed that command
    assert_eq!(dict.run_headless(decr_command), Ok(CommandResult::Decr));

    // Check that it worked (-5-1 = -6)
    let get_command = "GET something".parse::<Command>().unwrap();
    assert_eq!(dict.run_headless(get_command), Ok(CommandResult::Get("-6".to_string())));
}

#[test]
fn call_expire_on_nonexistent() {
    let mut dict = Dictionary::new();

    assert_eq!(
        dict.expire("blahblah", 5 * NANOS_PER_SEC),
        Err(DictionaryError::DoesNotExist)
    );
}

#[test]
fn call_del_on_nonexistent() {
    let mut dict = Dictionary::new();

    assert_eq!(dict.del("blahblah"), Err(DictionaryError::DoesNotExist));
}

#[test]
fn expire_keeps_entry_physically() {
    let mut dict = Dictionary::new();
    let t0: u64 = 1_800_000_000 * NANOS_PER_SEC;

    dict.set("k".to_string(), Entry { value: "v".to_string(), expiration: None });
    dict.expire_at("k", NANOS_PER_SEC, t0).unwrap();

    let later = t0 + 2 * NANOS_PER_SEC;
    assert_eq!(dict.get_at("k", later), Err(DictionaryError::IsExpired));
    assert_eq!(dict.exists_at("k", later), false);
    // still physically present: Del succeeds rather than DoesNotExist
    assert_eq!(dict.del("k"), Ok(()));
    assert_eq!(dict.get_at("k", later), Err(DictionaryError::DoesNotExist));
}

#[test]
fn exists_lazy_expiration_boundary() {
    let mut dict = Dictionary::new();
    let t0: u64 = 1_800_000_000 * NANOS_PER_SEC;

    dict.set("k".to_string(), Entry { value: "v".to_string(), expiration: Some(t0) });
    // expired exactly at its expiration instant
    assert_eq!(dict.exists_at("k", t0 - 1), true);
    assert_eq!(dict.exists_at("k", t0), false);
    assert!(dict.get_at("k", t0 - 1).is_ok());
    assert_eq!(dict.get_at("k", t0), Err(DictionaryError::IsExpired));
}

#[test]
fn incr_on_non_integer() {
    let mut dict = Dictionary::new();

    dict.set("k".to_string(), Entry { value: "abc".to_string(), expiration: None });
    assert_eq!(dict.incr("k"), Err(DictionaryError::InvalidOperationType));
    assert_eq!(dict.decr("k"), Err(DictionaryError::InvalidOperationType));
    // the entry is byte-for-byte unchanged
    assert_eq!(dict.get("k"), Ok("abc".to_string()));
}

#[test]
fn incr_drops_expiration() {
    let mut dict = Dictionary::new();
    let t0: u64 = 1_800_000_000 * NANOS_PER_SEC;

    dict.set("n".to_string(), Entry { value: "41".to_string(), expiration: Some(t0) });
    dict.incr_at("n", t0 - 1).unwrap();
    // the replacement entry has no expiration any more
    assert_eq!(dict.get_at("n", t0 + 1), Ok("42".to_string()));
}

#[test]
fn incr_accepts_signs_and_leading_zeros() {
    let mut dict = Dictionary::new();

    dict.set("a".to_string(), Entry { value: "+5".to_string(), expiration: None });
    dict.incr("a").unwrap();
    assert_eq!(dict.get("a"), Ok("6".to_string()));

    dict.set("b".to_string(), Entry { value: "007".to_string(), expiration: None });
    dict.incr("b").unwrap();
    assert_eq!(dict.get("b"), Ok("8".to_string()));

    dict.set("c".to_string(), Entry { value: "1.5".to_string(), expiration: None });
    assert_eq!(dict.incr("c"), Err(DictionaryError::InvalidOperationType));
}

#[test]
fn incr_wraps_at_the_edge() {
    let mut dict = Dictionary::new();

    dict.set(
        "m".to_string(),
        Entry { value: "9223372036854775807".to_string(), expiration: None },
    );
    dict.incr("m").unwrap();
    assert_eq!(dict.get("m"), Ok("-9223372036854775808".to_string()));
    dict.decr("m").unwrap();
    assert_eq!(dict.get("m"), Ok("9223372036854775807".to_string()));
}

#[test]
fn clear_empties_the_store() {
    let mut dict = Dictionary::new();

    dict.set("a".to_string(), Entry { value: "1".to_string(), expiration: None });
    dict.set("b".to_string(), Entry { value: "2".to_string(), expiration: None });
    dict.clear();
    assert_eq!(dict.get("a"), Err(DictionaryError::DoesNotExist));
    assert_eq!(dict.get("b"), Err(DictionaryError::DoesNotExist));
    assert_eq!(dict.key_exists("a"), false);
}

#[test]
fn set_overwrites() {
    let mut dict = Dictionary::new();

    dict.set("k".to_string(), Entry { value: "old".to_string(), expiration: None });
    dict.set("k".to_string(), Entry { value: "new".to_string(), expiration: None });
    assert_eq!(dict.get("k"), Ok("new".to_string()));
}

#[test]
fn error_messages() {
    assert_eq!(DictionaryError::DoesNotExist.to_string(), "Key does not exist.");
    assert_eq!(DictionaryError::IsExpired.to_string(), "Key has expired.");
    assert_eq!(
        DictionaryError::InvalidOperationType.to_string(),
        "This operation is not defined on value type."
    );
}
