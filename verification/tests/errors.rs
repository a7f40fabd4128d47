use kascreech::err::{quiet_assert, require_parameter, kahoot_not_found, FailResponse, KascreechError};
use kascreech::game::fetch_failure;

#[test]
fn error_names() {
    assert_eq!(KascreechError::FailedRead.to_json(), "FailedRead");
    assert_eq!(KascreechError::GameNotFound.to_json(), "GameNotFound");
    assert_eq!(KascreechError::KahootGameNotFound.to_json(), "KahootGameNotFound");
    assert_eq!(KascreechError::UsernameAlreadyExists.to_json(), "UsernameAlreadyExists");
    assert_eq!(KascreechError::GameAlreadyExists.to_json(), "GameAlreadyExists");
    assert_eq!(KascreechError::InvalidCommand.to_json(), "InvalidCommand");
    assert_eq!(KascreechError::UnknownError.to_json(), "UnknownError");
}

#[test]
fn error_status_codes() {
    assert_eq!(KascreechError::FailedRead.status_code(), 500);
    assert_eq!(KascreechError::GameNotFound.status_code(), 404);
    assert_eq!(KascreechError::KahootGameNotFound.status_code(), 404);
    assert_eq!(KascreechError::UsernameAlreadyExists.status_code(), 409);
    assert_eq!(KascreechError::GameAlreadyExists.status_code(), 409);
    assert_eq!(KascreechError::InvalidCommand.status_code(), 400);
    assert_eq!(KascreechError::UnknownError.status_code(), 500);
}

#[test]
fn missing_parameter() {
    let e = FailResponse::none_option();
    assert!(!e.success);
    assert_eq!(e.error_type, KascreechError::FailedRead);
    assert_eq!(e.error_message.as_deref(), Some("A parameter was missing"));
    let e = require_parameter(None).unwrap_err();
    assert_eq!(e.error_type, KascreechError::FailedRead);
    assert_eq!(require_parameter(Some("x".to_string())).ok().as_deref(), Some("x"));
}

#[test]
fn out_of_turn() {
    assert!(quiet_assert(true).is_ok());
    let e = quiet_assert(false).unwrap_err();
    assert!(!e.success);
    assert_eq!(e.error_type, KascreechError::InvalidCommand);
    assert_eq!(e.error_message.as_deref(), Some("Command not valid at this time"));
}

#[test]
fn new_failure_and_parse_failure() {
    let e = FailResponse::new(KascreechError::UnknownError, None);
    assert!(!e.success && e.error_type == KascreechError::UnknownError && e.error_message.is_none());
    let e = FailResponse::from_parse_error("bad json".to_string());
    assert_eq!(e.error_type, KascreechError::FailedRead);
    assert_eq!(e.error_message.as_deref(), Some("bad json"));
    let e = kahoot_not_found("timeout".to_string());
    assert_eq!(e.error_type, KascreechError::KahootGameNotFound);
    assert_eq!(e.error_message.as_deref(), Some("timeout"));
}

#[test]
fn fetch_failures() {
    let e = fetch_failure(Some(404), "not found".to_string());
    assert_eq!(e.error_type, KascreechError::GameNotFound);
    assert!(e.error_message.is_none());
    let e = fetch_failure(Some(500), "server".to_string());
    assert_eq!(e.error_type, KascreechError::UnknownError);
    assert_eq!(e.error_message.as_deref(), Some("server"));
    let e = fetch_failure(None, "dns".to_string());
    assert_eq!(e.error_type, KascreechError::UnknownError);
}
