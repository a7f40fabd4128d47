use kascreech::err::KascreechError;
use kascreech::hosting::{HostEvent, Outbound, PlayerEvent};
use kascreech::server::{AppState, Route};
use kascreech::types::{Answer, ClientStatus, Game, GamePhase, Player, Question};

fn question(text: &str, answers: &[(&str, bool)]) -> Question {
    Question {
        question: text.to_string(),
        duration: 10,
        answers: answers.iter().map(|(t, c)| Answer { text: t.to_string(), correct: *c }).collect(),
    }
}

fn player(name: &str, points: usize, streak: usize, played: Option<usize>) -> Player {
    Player { name: name.to_string(), points, streak, played, answer_time: 0, player_round_end: None }
}

fn status_of(state: &AppState, client: u64) -> Option<&ClientStatus> {
    state.clients.get(&client)
}

#[test]
fn lobby_routing() {
    let mut state = AppState::new();
    state.connect(7);
    assert!(matches!(status_of(&state, 7), Some(ClientStatus::Loading)));
    assert!(matches!(state.route(7, Some("join".to_string())), Ok(Route::Join)));
    assert!(matches!(state.route(7, Some("host".to_string())), Ok(Route::Host)));
    let e = state.route(7, Some("start".to_string())).err().unwrap();
    assert_eq!(e.error_type, KascreechError::InvalidCommand);
    assert_eq!(
        e.error_message.as_deref(),
        Some("Only acceptable commands in this context are `join` and `host`")
    );
    let e = state.route(7, None).err().unwrap();
    assert_eq!(e.error_type, KascreechError::FailedRead);
}

#[test]
fn hosting_a_game() {
    let mut state = AppState::new();
    state.connect(1);
    let questions = vec![question("Q1", &[("a", true), ("b", false)])];
    let response = state.host(1, "Quiz".to_string(), questions, "123456".to_string());
    assert!(response.success);
    assert_eq!(response.game_id, "123456");
    assert_eq!(response.game_name, "Quiz");
    assert_eq!(response.question_count, 1);
    assert!(matches!(status_of(&state, 1), Some(ClientStatus::Hosting(id)) if id == "123456"));
    assert_eq!(state.games.len(), 1);
    assert_eq!(state.get_game_phase(&"123456".to_string()), GamePhase::Lobby);
    match state.route(1, Some("anything".to_string())) {
        Ok(Route::Steer { game_id, phase }) => {
            assert_eq!(game_id, "123456");
            assert_eq!(phase, GamePhase::Lobby);
        }
        _ => panic!("expected the host's route"),
    }
    // Hosting again under the same id replaces the game.
    state.connect(2);
    state.host(2, "Other".to_string(), vec![], "123456".to_string());
    assert_eq!(state.games.len(), 1);
    assert_eq!(state.games[0].host, 2);
}

#[test]
fn a_round_on_the_server() {
    let mut state = AppState::new();
    state.connect(1);
    let questions = vec![
        question("Q1", &[("a", false), ("b", true), ("c", true)]),
        question("Q2", &[("x", true)]),
    ];
    state.host(1, "Quiz".to_string(), questions, "000042".to_string());
    state.games[0].players = vec![
        (10, player("ann", 100, 2, None)),
        (11, player("ben", 0, 0, None)),
        (12, player("cat", 50, 1, None)),
    ];
    let id = "000042".to_string();

    let e = state.handle_message(&id, Some("leaderboard".to_string()), 5, &vec![]).err().unwrap();
    assert_eq!(e.error_type, KascreechError::InvalidCommand);
    let e = state.handle_message(&id, None, 5, &vec![]).err().unwrap();
    assert_eq!(e.error_type, KascreechError::FailedRead);
    let e = state.handle_message(&"999999".to_string(), Some("start".to_string()), 5, &vec![]).err().unwrap();
    assert_eq!(e.error_type, KascreechError::FailedRead);

    let out = state.handle_message(&id, Some("start".to_string()), 1000, &vec![]).ok().unwrap();
    assert_eq!(out.len(), 4);
    match &out[0] {
        Outbound::ToHost(HostEvent::Question(q)) => {
            assert_eq!(q.question, "Q1");
            assert_eq!(q.answers.len(), 3);
        }
        _ => panic!("expected the question"),
    }
    assert!(matches!(out[1], Outbound::ToPlayer(10, PlayerEvent::QuestionStart { number_of_answers: 3 })));
    let game = &state.games[0];
    assert_eq!(game.phase, GamePhase::Question);
    assert_eq!(game.correct_answers, vec![1, 2]);
    assert_eq!(game.question_start_time, 1000);
    assert!(game.is_correct(Some(2)));
    assert!(!game.is_correct(Some(0)));
    assert!(!game.is_correct(None));

    // ann guesses wrong, ben right, cat right.
    state.games[0].players[0].1.played = Some(0);
    state.games[0].players[1].1.played = Some(1);
    state.games[0].players[2].1.played = Some(2);
    let out = state.handle_message(&id, Some("leaderboard".to_string()), 2000, &vec![900, 800, 10]).ok().unwrap();
    let game = &state.games[0];
    assert_eq!(game.phase, GamePhase::Leaderboard);
    // ann: 100 (streak lost), ben: 800, cat: 60.
    let points: Vec<usize> = game.players.iter().map(|(_, p)| p.points).collect();
    assert_eq!(points, vec![100, 800, 60]);
    let streaks: Vec<usize> = game.players.iter().map(|(_, p)| p.streak).collect();
    assert_eq!(streaks, vec![0, 1, 2]);
    // Ascending: cat (60), ann (100), ben (800): positions 3, 2, 1; each is
    // behind the player just above, and the leader behind nobody.
    let report = |k: usize| game.players[k].1.player_round_end.as_ref().unwrap();
    assert_eq!(report(2).position, 3);
    assert_eq!(report(2).behind.as_deref(), Some("ann"));
    assert_eq!(report(0).position, 2);
    assert_eq!(report(0).behind.as_deref(), Some("ben"));
    assert_eq!(report(1).position, 1);
    assert!(report(1).behind.is_none());
    assert_eq!(report(1).points_this_round, 800);
    assert!(report(1).correct);
    assert!(!report(0).correct);
    assert_eq!(report(0).points_this_round, 0);
    assert!(game.players.iter().all(|(_, p)| p.played.is_none()));
    assert_eq!(out.len(), 4);
    match &out[0] {
        Outbound::ToHost(HostEvent::Leaderboard(board)) => {
            let names: Vec<&str> = board.iter().map(|e| e.user_name.as_str()).collect();
            assert_eq!(names, vec!["ben", "ann", "cat"]);
        }
        _ => panic!("expected the leaderboard"),
    }
    assert!(matches!(&out[1], Outbound::ToPlayer(10, PlayerEvent::RoundEnd(r)) if r.position == 2));

    let out = state.handle_message(&id, Some("question".to_string()), 3000, &vec![]).ok().unwrap();
    assert_eq!(out.len(), 4);
    let out = state.handle_message(&id, Some("leaderboard".to_string()), 4000, &vec![1, 1, 1]).ok().unwrap();
    // The last round: reports and final positions, and the game is dropped.
    assert_eq!(out.len(), 1 + 2 * 3);
    assert!(matches!(&out[2], Outbound::ToPlayer(10, PlayerEvent::End { .. })));
    assert!(state.games.is_empty());
}

#[test]
fn asking_past_the_last_question_is_refused() {
    let mut state = AppState::new();
    state.connect(1);
    state.host(1, "Empty".to_string(), vec![], "111111".to_string());
    let e = state.handle_message(&"111111".to_string(), Some("start".to_string()), 0, &vec![]).err().unwrap();
    assert_eq!(e.error_type, KascreechError::FailedRead);
    assert_eq!(state.games[0].phase, GamePhase::Lobby);
}

#[test]
fn disconnecting() {
    let mut state = AppState::new();
    state.connect(1);
    state.host(1, "Quiz".to_string(), vec![], "222222".to_string());
    state.connect(5);
    *state.clients.get_mut(&5).unwrap() = ClientStatus::Playing("222222".to_string());
    state.games[0].players = vec![(5, player("pia", 0, 0, None)), (6, player("quin", 0, 0, None))];
    assert!(matches!(state.route(5, None), Ok(Route::Play { .. })));
    state.disconnect(5);
    assert!(status_of(&state, 5).is_none());
    assert_eq!(state.games[0].players.len(), 1);
    assert_eq!(state.games[0].players[0].0, 6);
    state.disconnect(1);
    assert!(status_of(&state, 1).is_none());
    assert_eq!(state.games.len(), 1);
}

#[test]
fn question_command_directly() {
    let mut game = Game {
        id: "1".to_string(),
        questions: vec![question("Q", &[("y", true)])],
        phase: GamePhase::Lobby,
        players: vec![],
        host: 0,
        correct_answers: vec![],
        question_start_time: 0,
    };
    let out = game.question_command(77).ok().unwrap();
    assert_eq!(out.len(), 1);
    assert!(game.questions.is_empty());
    assert!(game.question_command(78).is_err());
    assert_eq!(game.question_start_time, 77);
}
