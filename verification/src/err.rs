//! The errors that the server answers a refused request with.
use vstd::prelude::*;

verus! {

/// What went wrong with a request.
#[derive(PartialEq, Eq, Structural, Clone, Copy, Debug)]
pub enum KascreechError {
    FailedRead,
    GameNotFound,
    KahootGameNotFound,
    UsernameAlreadyExists,
    GameAlreadyExists,
    InvalidCommand,
    UnknownError,
}

/// The name under which an error kind is sent to clients.
pub open spec fn error_name(error: KascreechError) -> Seq<char> {
    match error {
        KascreechError::FailedRead => "FailedRead"@,
        KascreechError::GameNotFound => "GameNotFound"@,
        KascreechError::KahootGameNotFound => "KahootGameNotFound"@,
        KascreechError::UsernameAlreadyExists => "UsernameAlreadyExists"@,
        KascreechError::GameAlreadyExists => "GameAlreadyExists"@,
        KascreechError::InvalidCommand => "InvalidCommand"@,
        KascreechError::UnknownError => "UnknownError"@,
    }
}

/// The HTTP status that an error kind is answered with by the catalogue API.
pub open spec fn error_status(error: KascreechError) -> u16 {
    match error {
        KascreechError::FailedRead => 500,
        KascreechError::GameNotFound => 404,
        KascreechError::KahootGameNotFound => 404,
        KascreechError::UsernameAlreadyExists => 409,
        KascreechError::GameAlreadyExists => 409,
        KascreechError::InvalidCommand => 400,
        KascreechError::UnknownError => 500,
    }
}

impl KascreechError {
    /// The JSON string value of the error kind.
    pub fn to_json(&self) -> (name: String)
        ensures
            name@ == error_name(*self),
    {
        match self {
            KascreechError::FailedRead => String::from_str("FailedRead"),
            KascreechError::GameNotFound => String::from_str("GameNotFound"),
            KascreechError::KahootGameNotFound => String::from_str("KahootGameNotFound"),
            KascreechError::UsernameAlreadyExists => String::from_str("UsernameAlreadyExists"),
            KascreechError::GameAlreadyExists => String::from_str("GameAlreadyExists"),
            KascreechError::InvalidCommand => String::from_str("InvalidCommand"),
            KascreechError::UnknownError => String::from_str("UnknownError"),
        }
    }

    /// The HTTP status code of a failed catalogue request of this kind.
    pub fn status_code(&self) -> (code: u16)
        ensures
            code == error_status(*self),
    {
        match self {
            KascreechError::FailedRead => 500,
            KascreechError::GameNotFound => 404,
            KascreechError::KahootGameNotFound => 404,
            KascreechError::UsernameAlreadyExists => 409,
            KascreechError::GameAlreadyExists => 409,
            KascreechError::InvalidCommand => 400,
            KascreechError::UnknownError => 500,
        }
    }
}

/// The answer to a refused request.
#[derive(Debug)]
pub struct FailResponse {
    pub success: bool,
    pub error_type: KascreechError,
    pub error_message: Option<String>,
}

/// A refusal of the given kind, with the given message.
pub open spec fn is_failure(
    response: FailResponse,
    error_type: KascreechError,
    message: Option<Seq<char>>,
) -> bool {
    &&& !response.success
    &&& response.error_type == error_type
    &&& match message {
        Some(m) => response.error_message is Some && response.error_message->0@ == m,
        None => response.error_message is None,
    }
}

/// The message of a refusal for a missing request parameter.
pub open spec fn missing_parameter_message() -> Seq<char> {
    "A parameter was missing"@
}

/// The message of a refusal for a command sent out of turn.
pub open spec fn out_of_turn_message() -> Seq<char> {
    "Command not valid at this time"@
}

impl FailResponse {
    pub fn new(error_type: KascreechError, error_message: Option<String>) -> (response: Self)
        ensures
            !response.success,
            response.error_type == error_type,
            response.error_message == error_message,
    {
        FailResponse { success: false, error_type, error_message }
    }

    /// The refusal of a request that lacks a parameter.
    pub fn none_option() -> (response: Self)
        ensures
            is_failure(response, KascreechError::FailedRead, Some(missing_parameter_message())),
    {
        FailResponse {
            success: false,
            error_type: KascreechError::FailedRead,
            error_message: Some(String::from_str("A parameter was missing")),
        }
    }

    /// The refusal of a request whose JSON could not be read; `message`
    /// describes the parse error.
    pub fn from_parse_error(message: String) -> (response: Self)
        ensures
            is_failure(response, KascreechError::FailedRead, Some(message@)),
    {
        FailResponse { success: false, error_type: KascreechError::FailedRead, error_message: Some(message) }
    }
}

/// Succeeds exactly when `condition` holds; otherwise refuses the command as
/// sent out of turn.
pub fn quiet_assert(condition: bool) -> (result: Result<(), FailResponse>)
    ensures
        result is Ok <==> condition,
        result matches Err(e) ==> is_failure(e, KascreechError::InvalidCommand, Some(out_of_turn_message())),
{
    if !condition {
        Err(
            FailResponse::new(
                KascreechError::InvalidCommand,
                Some(String::from_str("Command not valid at this time")),
            ),
        )
    } else {
        Ok(())
    }
}

} // verus!

verus! {

/// A request parameter that must be present: missing, the request is
/// refused as missing a parameter.
pub fn require_parameter(value: Option<String>) -> (result: Result<String, FailResponse>)
    ensures
        value is Some ==> result == Ok::<String, FailResponse>(value->0),
        value is None ==> (result matches Err(e) && is_failure(
            e,
            KascreechError::FailedRead,
            Some(missing_parameter_message()),
        )),
{
    match value {
        Some(v) => Ok(v),
        None => Err(FailResponse::none_option()),
    }
}

/// The refusal of a host whose Kahoot quiz could not be fetched; `message`
/// says why.
pub fn kahoot_not_found(message: String) -> (response: FailResponse)
    ensures
        is_failure(response, KascreechError::KahootGameNotFound, Some(message@)),
{
    FailResponse::new(KascreechError::KahootGameNotFound, Some(message))
}

} // verus!
