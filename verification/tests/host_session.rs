use kascreech::err::KascreechError;
use kascreech::game::{Game, KahootAnswer, KahootGame, KahootQuestion, Senders};
use kascreech::host::{generate_game_id, Delivery, HostMessage, HostPhase, HostSession, PlayerMessage};
use kascreech::join::PlayerGuess;
use kascreech::player::Player;

fn answer(text: &str, correct: bool) -> KahootAnswer {
    KahootAnswer { answer: text.to_string(), correct }
}

fn quiz() -> KahootGame {
    KahootGame {
        title: "Capitals".to_string(),
        questions: vec![
            KahootQuestion {
                question: "France?".to_string(),
                time: 20000,
                choices: vec![answer("Paris", true), answer("Lyon", false)],
            },
            KahootQuestion {
                question: "Spain?".to_string(),
                time: 5500,
                choices: vec![answer("Bilbao", false), answer("Madrid", true), answer("Seville", false)],
            },
        ],
    }
}

fn guess(name: &str, index: usize) -> PlayerGuess {
    PlayerGuess { user_name: name.to_string(), index }
}

fn to_player<'a>(d: &'a Delivery) -> (&'a str, &'a PlayerMessage) {
    match d {
        Delivery::ToPlayer(name, m) => (name.as_str(), m),
        Delivery::ToHost(_) => panic!("expected a player message"),
    }
}

#[test]
fn game_converts_times_to_seconds() {
    let game = Game::new(quiz());
    assert_eq!(game.game_code, "Capitals");
    assert_eq!(game.questions.len(), 2);
    assert_eq!(game.questions[0].time, 20);
    assert_eq!(game.questions[1].time, 5);
    assert_eq!(game.questions[1].choices[1].answer, "Madrid");
    assert!(game.players.is_empty());
}

#[test]
fn response_names_the_game() {
    let session = HostSession::new(Game::new(quiz()));
    let response = session.make_response("123456".to_string());
    assert!(response.success);
    assert_eq!(response.game_id, "123456");
    assert_eq!(response.game_name, "Capitals");
    assert_eq!(response.question_count, 2);
}

#[test]
fn joining_is_refused_for_taken_names_and_started_games() {
    let mut session = HostSession::new(Game::new(quiz()));
    assert!(session.join("alice".to_string()).is_ok());
    let e = session.join("alice".to_string()).unwrap_err();
    assert_eq!(e.error_type, KascreechError::UsernameAlreadyExists);
    assert_eq!(session.game.players.len(), 1);
    session.on_host_command("start");
    let e = session.join("bob".to_string()).unwrap_err();
    assert_eq!(e.error_type, KascreechError::GameNotFound);
    assert!(e.error_message.is_none());
}

#[test]
fn out_of_turn_commands_change_nothing() {
    let mut session = HostSession::new(Game::new(quiz()));
    assert!(session.on_host_command("leaderboard").is_empty());
    assert!(session.on_host_command("question").is_empty());
    assert_eq!(session.phase, HostPhase::Lobby);
    assert!(!session.senders.in_progress);
}

#[test]
fn a_full_game() {
    let mut session = HostSession::new(Game::new(quiz()));
    for name in ["alice", "bob", "carol"] {
        session.join(name.to_string()).unwrap();
    }
    match session.announce_player("dave".to_string()) {
        Delivery::ToHost(HostMessage::PlayerJoined { player_name }) => assert_eq!(player_name, "dave"),
        _ => panic!("expected an announcement"),
    }

    let d = session.on_host_command("start");
    assert_eq!(session.phase, HostPhase::Question);
    assert!(session.accepts_guesses());
    assert_eq!(d.len(), 4);
    for (i, name) in ["alice", "bob", "carol"].iter().enumerate() {
        let (to, m) = to_player(&d[i]);
        assert_eq!(to, *name);
        assert!(matches!(m, PlayerMessage::QuestionStart { number_of_answers: 2 }));
    }
    match &d[3] {
        Delivery::ToHost(HostMessage::Question { question, duration, answers }) => {
            assert_eq!(question, "France?");
            assert_eq!(*duration, 20);
            assert_eq!(answers.len(), 2);
            assert_eq!(answers[0].answer, "Paris");
        }
        _ => panic!("expected the question"),
    }

    // bob right first, carol wrong, alice right second, bob again (ignored), an unknown player.
    session.on_guess(guess("bob", 0));
    session.on_guess(guess("carol", 1));
    session.on_guess(guess("alice", 0));
    session.on_guess(guess("bob", 1));
    session.on_guess(guess("zed", 0));
    let bob = &session.game.players[1];
    assert_eq!(bob.points, 1000);
    assert_eq!(bob.streak, 1);
    let alice = &session.game.players[0];
    assert_eq!(alice.points, 1000);
    let carol = &session.game.players[2];
    assert_eq!(carol.points, 0);
    assert_eq!(carol.streak, 0);
    assert!(carol.played);

    let d = session.on_host_command("leaderboard");
    assert_eq!(session.phase, HostPhase::Leaderboard);
    assert!(!session.accepts_guesses());
    // Ascending by points, ties kept in order: carol (0), alice (1000), bob (1000).
    assert_eq!(d.len(), 4);
    let names: Vec<&str> = session.game.players.iter().map(|p| p.user_name.as_str()).collect();
    assert_eq!(names, vec!["carol", "alice", "bob"]);
    let (to, m) = to_player(&d[0]);
    assert_eq!(to, "carol");
    match m {
        PlayerMessage::RoundEnd(r) => {
            assert_eq!(r.event, "questionEnd");
            assert!(!r.correct);
            assert_eq!(r.position, 3);
            assert_eq!(r.behind.as_deref(), Some("alice"));
        }
        _ => panic!("expected a report"),
    }
    match to_player(&d[2]).1 {
        PlayerMessage::RoundEnd(r) => {
            assert!(r.correct);
            assert_eq!(r.points_this_round, 1000);
            assert_eq!(r.points_total, 1000);
            assert_eq!(r.streak, 1);
            assert_eq!(r.position, 1);
            assert!(r.behind.is_none());
        }
        _ => panic!("expected a report"),
    }
    match &d[3] {
        Delivery::ToHost(HostMessage::Leaderboard { leaderboard }) => {
            // Best first, ties kept in join order: alice, bob, carol.
            let names: Vec<&str> = leaderboard.iter().map(|e| e.user_name.as_str()).collect();
            assert_eq!(names, vec!["alice", "bob", "carol"]);
            assert_eq!(leaderboard[0].points, 1000);
            assert_eq!(leaderboard[2].points, 0);
        }
        _ => panic!("expected the leaderboard"),
    }
    assert!(session.game.players.iter().all(|p| !p.played && p.player_round_end.is_none()));

    let d = session.on_host_command("question");
    assert_eq!(session.phase, HostPhase::Question);
    assert_eq!(d.len(), 4);
    assert!(matches!(to_player(&d[0]).1, PlayerMessage::QuestionStart { number_of_answers: 3 }));
    session.on_guess(guess("carol", 1));
    session.on_guess(guess("alice", 7));

    let d = session.on_host_command("leaderboard");
    assert_eq!(session.phase, HostPhase::Finished);
    // Round reports and leaderboard, then final positions.
    assert_eq!(d.len(), 4 + 3);
    // alice's guess named no answer: she gets no report of her own and loses her streak.
    let alice = session.game.players.iter().find(|p| p.user_name == "alice").unwrap();
    assert_eq!(alice.streak, 0);
    // carol: 0 + 1000 (first right guess of 3 players).
    let finals: Vec<(String, usize)> = d[4..]
        .iter()
        .map(|x| match to_player(x) {
            (n, PlayerMessage::GameOver { position }) => (n.to_string(), *position),
            _ => panic!("expected the end"),
        })
        .collect();
    assert_eq!(
        finals,
        vec![("carol".to_string(), 1), ("alice".to_string(), 2), ("bob".to_string(), 3)]
    );
    let points: Vec<usize> = session.game.players.iter().map(|p| p.points).collect();
    assert!(points.windows(2).all(|w| w[0] >= w[1]));
    for (i, (_, position)) in finals.iter().enumerate() {
        assert_eq!(*position, i + 1);
    }
}

#[test]
fn starting_without_questions_ends_the_game() {
    let mut session = HostSession::new(Game::new(KahootGame { title: "Empty".to_string(), questions: vec![] }));
    session.join("solo".to_string()).unwrap();
    let d = session.on_host_command("start");
    assert_eq!(session.phase, HostPhase::Finished);
    assert_eq!(d.len(), 1);
    assert!(matches!(to_player(&d[0]), ("solo", PlayerMessage::GameOver { position: 1 })));
}

#[test]
fn host_leaving_on_the_leaderboard_ends_the_game() {
    let mut session = HostSession::new(Game::new(quiz()));
    session.on_host_left();
    assert_eq!(session.phase, HostPhase::Lobby);
    session.on_host_command("start");
    session.on_host_command("leaderboard");
    session.on_host_left();
    assert_eq!(session.phase, HostPhase::Finished);
}

#[test]
fn player_report_without_a_guess() {
    let mut p = Player::new("dora".to_string());
    p.points = 700;
    p.streak = 4;
    p.played = true;
    let r = p.send(2, Some("eve".to_string()));
    assert_eq!(r.event, "questionEnd");
    assert!(!r.correct);
    assert_eq!(r.points_this_round, 0);
    assert_eq!(r.points_total, 700);
    assert_eq!(r.streak, 0);
    assert_eq!(r.position, 2);
    assert_eq!(r.behind.as_deref(), Some("eve"));
    assert_eq!(p.streak, 0);
    assert!(!p.played);
}

#[test]
fn senders_start_closed() {
    let s = Senders::new();
    assert!(!s.receiving && !s.in_progress);
}

#[test]
fn game_ids_are_six_digits() {
    for _ in 0..50 {
        let id = generate_game_id();
        assert_eq!(id.len(), 6);
        assert!(id.chars().all(|c| c.is_ascii_digit()));
    }
}
