use kascreech::points::Points;

fn float_award(placement: i32, num_of_players: i32) -> u16 {
    let power = -(placement - 1) / (num_of_players - 1).max(1);
    (1000. * 1.5_f64.powi(power)) as u16
}

#[test]
fn first_guess_alone_earns_fifteen_hundred() {
    let mut points = Points::new(1);
    assert_eq!(points.next_points(), 1500);
    assert_eq!(points.next_points(), 1000);
    assert_eq!(points.next_points(), 666);
    assert_eq!(points.next_points(), 444);
    assert_eq!(points.next_points(), 296);
}

#[test]
fn awards_spread_over_players() {
    let mut points = Points::new(3);
    let awards: Vec<u16> = (0..6).map(|_| points.next_points()).collect();
    assert_eq!(awards, vec![1000, 1000, 1000, 666, 666, 444]);
}

#[test]
fn no_players_counts_as_one_spread() {
    let mut points = Points::new(0);
    assert_eq!(points.next_points(), 1500);
    assert_eq!(points.next_points(), 1000);
}

#[test]
fn awards_agree_with_the_floating_point_formula() {
    for num in 0..25 {
        let mut points = Points::new(num);
        for placement in 0..120 {
            assert_eq!(points.next_points(), float_award(placement, num), "placement {} of {}", placement, num);
        }
    }
}

#[test]
fn awards_never_grow_and_vanish_eventually() {
    let mut points = Points::new(2);
    let mut last = points.next_points();
    for _ in 0..40 {
        let next = points.next_points();
        assert!(next <= last);
        last = next;
    }
    assert_eq!(last, 0);
}
