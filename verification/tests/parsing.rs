use kvdis::command::Command;
use kvdis::errors::ParseError;
use kvdis::parsing::{parse_command, parse_line_to_command};

const NANOS_PER_SEC: u64 = 1_000_000_000;

#[test]
fn expire_single_var() {
    let s = "EXPIRE alex 3s";
    let com = s.parse::<Command>();

    assert_eq!(com, Ok(Command::Expire("alex".to_string(), 3 * NANOS_PER_SEC)));
}

#[test]
fn set() {
    let key = "metanoia";
    let value = "19";

    let com = String::from("SET ") + key + " " + value;
    let com = com.parse::<Command>();

    assert_eq!(com, Ok(Command::Put("metanoia".to_string(), "19".to_string())));
}

#[test]
fn get() {
    let key = "metanoia";

    let com = String::from("GET ") + key;
    let com = com.parse::<Command>();

    assert_eq!(com, Ok(Command::Get("metanoia".to_string())));
}

#[test]
fn del() {
    let key = "metanoia";

    let com = String::from("DEL ") + key;
    let com = com.parse::<Command>();

    assert_eq!(com, Ok(Command::Del("metanoia".to_string())));
}

#[test]
fn exists_command() {
    let key = "metanoia";

    let com = String::from("EXISTS ") + key;
    let com = com.parse::<Command>();

    assert_eq!(com, Ok(Command::Exists("metanoia".to_string())));
}

#[test]
fn expire_multiple_var() {
    let key = "metanoia";

    let com = String::from("EXPIRE ") + key + " 1h 27m 13s";
    let com = com.parse::<Command>();

    // 1h 27m 13s is 5233 seconds
    assert_eq!(com, Ok(Command::Expire("metanoia".to_string(), 5_233 * NANOS_PER_SEC)));
}

#[test]
fn parsing_incr() {
    let key = "metanoia";

    let com = String::from("INCR ") + key;
    let com = com.parse::<Command>();

    assert_eq!(com, Ok(Command::Incr("metanoia".to_string())));
}

#[test]
fn parsing_decr() {
    let key = "metanoia";

    let com = String::from("DECR ") + key;
    let com = com.parse::<Command>();

    assert_eq!(com, Ok(Command::Decr("metanoia".to_string())));
}

#[test]
fn parse_empty_line() {
    assert_eq!("".parse::<Command>(), Err(ParseError::IsEmpty));
    assert_eq!("   ".parse::<Command>(), Err(ParseError::IsEmpty));
}

#[test]
fn parse_unknown_verb() {
    assert_eq!("blahblah foo".parse::<Command>(), Err(ParseError::NotACommand));
    assert_eq!("set a b".parse::<Command>(), Err(ParseError::NotACommand));
}

#[test]
fn parse_wrong_arity() {
    assert_eq!("SET onlykey".parse::<Command>(), Err(ParseError::InvalidParameters));
    assert_eq!("GET a b".parse::<Command>(), Err(ParseError::InvalidParameters));
    assert_eq!("EXPIRE key".parse::<Command>(), Err(ParseError::InvalidParameters));
    assert_eq!("CLEAR now".parse::<Command>(), Err(ParseError::InvalidParameters));
}

#[test]
fn parse_bad_duration() {
    assert_eq!(
        "EXPIRE key notaduration".parse::<Command>(),
        Err(ParseError::InvalidParameters)
    );
}

#[test]
fn parse_whitespace_variants() {
    let com = "  SET   metanoia\t19 ".parse::<Command>();
    assert_eq!(com, Ok(Command::Put("metanoia".to_string(), "19".to_string())));
    assert_eq!("CLEAR".parse::<Command>(), Ok(Command::Clear));
    assert_eq!("SAVE".parse::<Command>(), Ok(Command::Save));
    assert_eq!("LOAD".parse::<Command>(), Ok(Command::Load));
}

#[test]
fn validate_line() {
    assert_eq!(parse_line_to_command("SET a b"), Ok(()));
    assert_eq!(parse_line_to_command("GET a b"), Err(ParseError::InvalidParameters));
    assert_eq!(parse_line_to_command("nope"), Err(ParseError::NotACommand));
    assert_eq!(parse_line_to_command(""), Err(ParseError::IsEmpty));
}

#[test]
fn parse_error_messages() {
    assert_eq!(ParseError::NotACommand.to_string(), "Not a command!");
    assert_eq!(ParseError::InvalidParameters.to_string(), "Command parameters are invalid!");
    assert_eq!(ParseError::IsEmpty.to_string(), "Empty.");
    assert!(parse_command("").is_err());
}
