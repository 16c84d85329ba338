//! End-to-end scenarios: one parsed command in, one response line out.

use kvdis::command::{Command, CommandResult};
use kvdis::dictionary::Dictionary;

const NANOS_PER_SEC: u64 = 1_000_000_000;

#[test]
fn scenario_set_get() {
    let mut dict = Dictionary::new();

    let out = dict.run("SET metanoia 19".parse::<Command>().unwrap());
    assert_eq!(out, "");
    let out = dict.run("GET metanoia".parse::<Command>().unwrap());
    assert_eq!(out, "19");
}

#[test]
fn scenario_incr() {
    let mut dict = Dictionary::new();

    assert_eq!(dict.run("SET something 5".parse::<Command>().unwrap()), "");
    assert_eq!(dict.run("INCR something".parse::<Command>().unwrap()), "");
    assert_eq!(dict.run("GET something".parse::<Command>().unwrap()), "6");
}

#[test]
fn scenario_expire_undefined() {
    let mut dict = Dictionary::new();

    let out = dict.run("EXPIRE alex 3s".parse::<Command>().unwrap());
    assert_eq!(out, "Key does not exist.");
}

#[test]
fn scenario_expired_get() {
    let mut dict = Dictionary::new();
    let t0: u64 = 1_800_000_000 * NANOS_PER_SEC;

    dict.run_at("SET metanoia 19".parse::<Command>().unwrap(), t0).unwrap();
    dict.run_at("EXPIRE metanoia 1s".parse::<Command>().unwrap(), t0).unwrap();
    // two seconds later the entry has expired
    let got = dict.run_at("GET metanoia".parse::<Command>().unwrap(), t0 + 2 * NANOS_PER_SEC);
    assert_eq!(got.unwrap_err().to_string(), "Key has expired.");
}

#[test]
fn scenario_expire_exact_sum() {
    let mut dict = Dictionary::new();
    let t0: u64 = 1_800_000_000 * NANOS_PER_SEC;

    dict.run_at("SET metanoia 19".parse::<Command>().unwrap(), t0).unwrap();
    // 1h 27m 13s is 5233 seconds: the expiration is now + 5233s exactly
    dict.run_at("EXPIRE metanoia 1h 27m 13s".parse::<Command>().unwrap(), t0).unwrap();
    let deadline = t0 + 5_233 * NANOS_PER_SEC;
    assert_eq!(dict.exists_at("metanoia", deadline - 1), true);
    assert_eq!(dict.exists_at("metanoia", deadline), false);
}

#[test]
fn scenario_exists_rendering() {
    let mut dict = Dictionary::new();

    assert_eq!(dict.run("SET here yes".parse::<Command>().unwrap()), "");
    assert_eq!(dict.run("EXISTS here".parse::<Command>().unwrap()), "true");
    assert_eq!(dict.run("EXISTS gone".parse::<Command>().unwrap()), "false");
    assert_eq!(dict.run("DEL here".parse::<Command>().unwrap()), "");
    assert_eq!(dict.run("EXISTS here".parse::<Command>().unwrap()), "false");
}

#[test]
fn scenario_error_lines() {
    let mut dict = Dictionary::new();

    assert_eq!(dict.run("GET missing".parse::<Command>().unwrap()), "Key does not exist.");
    assert_eq!(dict.run("DEL missing".parse::<Command>().unwrap()), "Key does not exist.");
    assert_eq!(dict.run("SET k text".parse::<Command>().unwrap()), "");
    assert_eq!(
        dict.run("INCR k".parse::<Command>().unwrap()),
        "This operation is not defined on value type."
    );
}

#[test]
fn scenario_save_is_void() {
    let mut dict = Dictionary::new();

    assert_eq!(dict.run("SET k v".parse::<Command>().unwrap()), "");
    // SAVE touches nothing in the store and reports a void success
    assert_eq!(dict.run("SAVE".parse::<Command>().unwrap()), "");
    assert_eq!(dict.run("GET k".parse::<Command>().unwrap()), "v");
}

#[test]
fn command_result_rendering() {
    assert_eq!(CommandResult::Put.to_string(), "");
    assert_eq!(CommandResult::Get("payload".to_string()).to_string(), "payload");
    assert_eq!(CommandResult::Exists(true).to_string(), "true");
    assert_eq!(CommandResult::Exists(false).to_string(), "false");
    assert_eq!(CommandResult::Del.to_string(), "");
    assert_eq!(CommandResult::Save.to_string(), "");
}

#[test]
fn scenario_clear_line() {
    let mut dict = Dictionary::new();

    assert_eq!(dict.run("SET a 1".parse::<Command>().unwrap()), "");
    assert_eq!(dict.run("CLEAR".parse::<Command>().unwrap()), "");
    assert_eq!(dict.run("GET a".parse::<Command>().unwrap()), "Key does not exist.");
}
