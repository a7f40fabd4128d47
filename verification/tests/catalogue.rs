use kascreech::api::{
    check_kahoot_id, check_not_imported, database_error, featured, list, recent, search, unreadable_request,
    KahootGame, COUNT,
};
use kascreech::database::{generate_id, id_from_bytes, kahoot_questions_to_normal_questions, DatabaseAnswer, DatabaseGame, DatabaseQuestion};
use kascreech::err::KascreechError;
use kascreech::types::GamePhase;

fn game(id: &str, name: &str, author: &str, plays: usize, featured: bool) -> DatabaseGame {
    DatabaseGame {
        id: id.to_string(),
        name: name.to_string(),
        description: String::new(),
        author: author.to_string(),
        image: None,
        questions: vec![],
        plays,
        kahoot: true,
        featured,
    }
}

fn ids(games: &[DatabaseGame]) -> Vec<String> {
    games.iter().map(|g| g.id.clone()).collect()
}

fn store(n: usize) -> Vec<Option<DatabaseGame>> {
    (0..n).map(|i| if i % 5 == 4 { None } else { Some(game(&i.to_string(), "n", "a", i, false)) }).collect()
}

#[test]
fn listing_pages() {
    assert!(list(store(30), None).is_none());
    let page = list(store(30), Some(0)).unwrap();
    assert_eq!(page.len(), COUNT);
    assert_eq!(ids(&page), vec!["0", "1", "2", "3", "5", "6", "7", "8", "10", "11"]);
    let page = list(store(30), Some(26)).unwrap();
    assert_eq!(ids(&page), vec!["26", "27", "28"]);
    assert!(list(store(30), Some(100)).unwrap().is_empty());
}

#[test]
fn most_recent_first() {
    let games = recent(store(30));
    assert_eq!(games.len(), COUNT);
    assert_eq!(ids(&games), vec!["28", "27", "26", "25", "23", "22", "21", "20", "18", "17"]);
    assert_eq!(ids(&recent(store(3))), vec!["2", "1", "0"]);
}

#[test]
fn searching_ignores_case() {
    let entries = vec![
        Some(game("a", "World Capitals", "Ann", 0, false)),
        None,
        Some(game("b", "Maths", "CAPTAIN cap", 0, false)),
        Some(game("c", "Rivers", "Bob", 0, false)),
    ];
    assert!(search(vec![], None).is_none());
    let found = search(entries, Some("CAP".to_string())).unwrap();
    assert_eq!(ids(&found), vec!["a", "b"]);
    let entries: Vec<Option<DatabaseGame>> = (0..15).map(|i| Some(game(&i.to_string(), "quiz", "x", 0, false))).collect();
    assert_eq!(search(entries, Some(String::new())).unwrap().len(), COUNT);
}

#[test]
fn featured_by_plays() {
    let entries = vec![
        Some(game("a", "n", "x", 5, true)),
        Some(game("b", "n", "x", 50, false)),
        None,
        Some(game("c", "n", "x", 9, true)),
        Some(game("d", "n", "x", 5, true)),
    ];
    assert_eq!(ids(&featured(entries)), vec!["c", "a", "d"]);
}

#[test]
fn importing() {
    let e = check_kahoot_id("").unwrap_err();
    assert_eq!(e.error_type, KascreechError::KahootGameNotFound);
    assert_eq!(e.error_message.as_deref(), Some("No Kahoot ID provided"));
    assert!(check_kahoot_id("abc").is_ok());
    let e = check_not_imported(true).unwrap_err();
    assert_eq!(e.error_type, KascreechError::GameAlreadyExists);
    assert_eq!(e.error_type.status_code(), 409);
    assert!(check_not_imported(false).is_ok());
    assert_eq!(database_error().error_type, KascreechError::UnknownError);
    assert_eq!(unreadable_request().error_type.status_code(), 400);
    let k = KahootGame {
        uuid: "fb42".to_string(),
        title: "T".to_string(),
        description: "D".to_string(),
        author: "A".to_string(),
        image: Some("img".to_string()),
        questions: vec![],
    };
    let g = k.into_database_game();
    assert_eq!(g.id, "kahoot-fb42");
    assert_eq!(g.name, "T");
    assert_eq!(g.plays, 0);
    assert!(g.kahoot && !g.featured);
}

#[test]
fn ids_from_bytes() {
    assert_eq!(id_from_bytes([0, 0, 0, 0]), "000000");
    assert_eq!(id_from_bytes([0, 0, 0x30, 0x39]), "012345");
    assert_eq!(id_from_bytes([0, 0x0f, 0x42, 0x40]), "000000");
    assert_eq!(id_from_bytes([255, 255, 255, 255]), "967295");
    let id = generate_id().unwrap();
    assert_eq!(id.len(), 6);
    assert!(id.chars().all(|c| c.is_ascii_digit()));
}

#[test]
fn loading_a_stored_quiz() {
    let mut g = game("kahoot-1", "n", "a", 0, false);
    g.questions = vec![DatabaseQuestion {
        question: "Q".to_string(),
        time: 20999,
        choices: vec![
            DatabaseAnswer { answer: "yes".to_string(), correct: true },
            DatabaseAnswer { answer: "no".to_string(), correct: false },
        ],
    }];
    let loaded = g.load_with_id(9, "654321".to_string());
    assert_eq!(loaded.id, "654321");
    assert_eq!(loaded.host, 9);
    assert_eq!(loaded.phase, GamePhase::Lobby);
    assert_eq!(loaded.questions[0].duration, 20);
    assert_eq!(loaded.questions[0].answers[0].text, "yes");
    assert!(!loaded.questions[0].answers[1].correct);
    let loaded = g.load(3).unwrap();
    assert_eq!(loaded.id.len(), 6);
    assert_eq!(kahoot_questions_to_normal_questions(&g.questions).len(), 1);
}
