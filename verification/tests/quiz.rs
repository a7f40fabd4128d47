use kascreech::quiz::{Game, Games, Guess, Player, QAndA};
use std::cmp::Ordering;

fn q(correct: Vec<usize>) -> QAndA {
    QAndA::new("Q".to_string(), ["a".to_string(), "b".to_string(), "c".to_string(), "d".to_string()], correct)
}

#[test]
fn schedule_and_lifetime() {
    let game = Game::new("123456".to_string(), vec![q(vec![0]), q(vec![1, 2])], None, Some(1000), None, 1_000_000);
    assert_eq!(*game.chungus().game_start_time(), 1_030_000);
    // start + (20000 + 1000 + 5000) * 2
    let setup = game.as_setup_game();
    assert_eq!(setup.answers, vec![vec![0], vec![1, 2]]);
    assert_eq!(setup.time_per_question, Some(20000));
    assert_eq!(setup.time_showing_answers, Some(1000));
    assert_eq!(setup.time_showing_leaderboard, Some(5000));
    assert_eq!(setup.game_start_time, 1_030_000);
    assert_eq!(game.game_id(), "123456");

    let mut games = Games::new();
    games.games.push(game);
    games.check(1_082_000);
    assert_eq!(games.games.len(), 1);
    games.check(1_082_001);
    assert!(games.games.is_empty());
}

#[test]
fn generated_games() {
    let mut games = Games::new();
    games.generate_new_game(vec![q(vec![0])], 0);
    assert_eq!(games.games.len(), 1);
    let id = games.games[0].game_id().to_string();
    assert_eq!(id.len(), 6);
    assert!(id.chars().all(|c| c.is_ascii_digit()));
    games.check(60_000);
    assert_eq!(games.games.len(), 1);
    games.check(60_001);
    assert!(games.games.is_empty());
}

#[test]
fn scores_and_ranking() {
    let mut game = Game::new("1".to_string(), vec![], None, None, None, 0);
    game.add_player(("u1".to_string(), "Ann".to_string()));
    game.add_player(("u2".to_string(), "Ben".to_string()));
    game.add_player(("u3".to_string(), "Cat".to_string()));
    game.add_score(Guess { uuid: "u2".to_string(), score: 30 });
    game.add_score(Guess { uuid: "u3".to_string(), score: 30 });
    game.add_score(Guess { uuid: "u1".to_string(), score: 10 });
    game.add_score(Guess { uuid: "nobody".to_string(), score: 99 });
    game.sort();
    let a = &game.players.players;
    assert_eq!(a[0].cmp(&a[1]), Ordering::Equal);
    assert_eq!(a[1].cmp(&a[2]), Ordering::Less);
    assert_eq!(a[2].partial_cmp(&a[0]), Some(Ordering::Greater));
    let fresh = Player::from(("u9".to_string(), "Zed".to_string()));
    assert_eq!(fresh.cmp(&a[2]), Ordering::Greater);
}
