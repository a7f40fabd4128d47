use kascreech::api::{import_request_id, search_query, search_request};
use kascreech::database::DatabaseGame;
use kascreech::err::KascreechError;
use kascreech::points::Points;
use kascreech::server::{host_request_id, message_command, AppState, Route};

fn game(id: &str, name: &str, author: &str) -> DatabaseGame {
    DatabaseGame {
        id: id.to_string(),
        name: name.to_string(),
        description: String::new(),
        author: author.to_string(),
        image: None,
        questions: vec![],
        plays: 0,
        kahoot: true,
        featured: false,
    }
}

fn body(text: &str) -> Option<Vec<u8>> {
    Some(text.as_bytes().to_vec())
}

#[test]
fn routing_raw_messages() {
    let mut state = AppState::new();
    state.connect(3);
    assert!(matches!(state.route_message(3, r#"{"command": "join"}"#), Ok(Route::Join)));
    assert!(matches!(state.route_message(3, r#"{"command": "host", "id": "x"}"#), Ok(Route::Host)));
    let e = state.route_message(3, "{not json").err().unwrap();
    assert_eq!(e.error_type, KascreechError::FailedRead);
    assert!(e.error_message.is_some());
    assert_ne!(e.error_message.as_deref(), Some("A parameter was missing"));
    let e = state.route_message(3, r#"{"id": "x"}"#).err().unwrap();
    assert_eq!(e.error_type, KascreechError::FailedRead);
    assert_eq!(e.error_message.as_deref(), Some("A parameter was missing"));
    let e = state.route_message(3, r#"{"command": 5}"#).err().unwrap();
    assert_eq!(e.error_message.as_deref(), Some("A parameter was missing"));
    let e = state.route_message(3, r#"{"command": "start"}"#).err().unwrap();
    assert_eq!(e.error_type, KascreechError::InvalidCommand);
}

#[test]
fn reading_host_ids_and_commands() {
    assert_eq!(host_request_id(r#"{"command": "host", "id": "abc-123"}"#).ok(), Some("abc-123".to_string()));
    let e = host_request_id(r#"{"command": "host"}"#).err().unwrap();
    assert_eq!(e.error_type, KascreechError::FailedRead);
    assert_eq!(e.error_message.as_deref(), Some("A parameter was missing"));
    let e = host_request_id("[1,").err().unwrap();
    assert_eq!(e.error_type, KascreechError::FailedRead);
    assert_eq!(message_command(r#"{"command": "leaderboard"}"#), Some("leaderboard".to_string()));
    assert_eq!(message_command(r#"{"command": null}"#), None);
    assert_eq!(message_command("nonsense"), None);
}

#[test]
fn reading_search_requests() {
    assert_eq!(search_query(body(r#"{"query": "Maths"}"#)), Some("Maths".to_string()));
    assert_eq!(search_query(None), None);
    assert_eq!(search_query(Some(vec![0xff, 0xfe])), None);
    assert_eq!(search_query(body("{")), None);
    assert_eq!(search_query(body(r#"{"q": "x"}"#)), None);

    let entries = vec![Some(game("1", "Maths quiz", "ann")), Some(game("2", "History", "MATHS TEACHER")), Some(game("3", "Art", "bob"))];
    let found = search_request(entries, body(r#"{"query": "maths"}"#)).unwrap();
    let ids: Vec<&str> = found.iter().map(|g| g.id.as_str()).collect();
    assert_eq!(ids, vec!["1", "2"]);
    assert!(search_request(vec![Some(game("1", "a", "b"))], body("{}")).is_none());
}

#[test]
fn reading_import_requests() {
    assert_eq!(import_request_id(body(r#"{"id": "fb42"}"#)).ok(), Some("fb42".to_string()));
    for unreadable in [None, Some(vec![0xc3, 0x28]), body("not json")] {
        let e = import_request_id(unreadable).err().unwrap();
        assert_eq!(e.error_type, KascreechError::InvalidCommand);
        assert_eq!(e.error_message.as_deref(), Some("Request could not be parsed"));
    }
    let e = import_request_id(body(r#"{"id": 42}"#)).err().unwrap();
    assert_eq!(e.error_type, KascreechError::FailedRead);
    assert_eq!(e.error_message.as_deref(), Some("A parameter was missing"));
}

#[test]
fn first_awards_by_game_size() {
    let mut two = Points::new(2);
    assert_eq!(two.next_points(), 1500);
    assert_eq!(two.next_points(), 1000);
    let mut four = Points::new(4);
    let awards: Vec<u16> = (0..5).map(|_| four.next_points()).collect();
    assert_eq!(awards, vec![1000, 1000, 1000, 1000, 666]);
}
