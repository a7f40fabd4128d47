//! Points awarded to correct guesses in the order in which they arrive.
use vstd::prelude::*;

use vstd::arithmetic::div_mod::{lemma_basic_div, lemma_div_is_ordered};

use crate::arith::{lemma_power_monotone, lemma_power_positive, lemma_power_two_le_three, power};

verus! {

/// Division of `a` by a positive `b`, rounded toward zero, as Rust's `/`
/// does on signed integers.
pub open spec fn div_toward_zero(a: int, b: int) -> int {
    if a >= 0 {
        a / b
    } else {
        -((-a) / b)
    }
}

/// The exponent of 1.5 in the award of the guess at `placement`: the first
/// correct guess is at placement 0.
pub open spec fn award_exponent(placement: int, num_of_players: int) -> int {
    let spread = if num_of_players - 1 > 1 {
        num_of_players - 1
    } else {
        1
    };
    div_toward_zero(-(placement - 1), spread)
}

/// `1000 * 1.5^exponent`, rounded toward zero.
pub open spec fn scaled_award(exponent: int) -> int {
    if exponent >= 0 {
        (1000 * power(3, exponent as nat)) as int / (power(2, exponent as nat) as int)
    } else {
        (1000 * power(2, (-exponent) as nat)) as int / (power(3, (-exponent) as nat) as int)
    }
}

/// The points that the correct guess at `placement` earns in a game of
/// `num_of_players` players.
pub open spec fn award_for(placement: int, num_of_players: int) -> int {
    scaled_award(award_exponent(placement, num_of_players))
}

/// Hands out points to correct guesses: the earlier a correct guess arrives
/// among the players' guesses, the more it earns.
#[derive(Debug)]
pub struct Points {
    placement: i32,
    num_of_players: i32,
}

impl Points {
    #[verifier::type_invariant]
    spec fn inv(self) -> bool {
        self.placement >= 0
    }

    /// How many correct guesses have been rewarded so far.
    pub closed spec fn placement(self) -> int {
        self.placement as int
    }

    /// The number of players the awards are spread over.
    pub closed spec fn num_of_players(self) -> int {
        self.num_of_players as int
    }

    /// The number of players is an `i32`.
    pub proof fn lemma_num_of_players_range(self)
        ensures
            i32::MIN <= self.num_of_players() <= i32::MAX,
    {
    }

    pub fn new(num_of_players: i32) -> (points: Points)
        ensures
            points.placement() == 0,
            points.num_of_players() == num_of_players,
    {
        Points { placement: 0, num_of_players }
    }

    /// The award of the next correct guess: `1000 * 1.5^e` rounded toward
    /// zero, where `e` is `-(placement - 1) / max(num_of_players - 1, 1)`.
    pub fn next_points(&mut self) -> (points: u16)
        requires
            old(self).placement() < i32::MAX,
            old(self).num_of_players() > i32::MIN,
        ensures
            points == award_for(old(self).placement(), old(self).num_of_players()),
            final(self).placement() == old(self).placement() + 1,
            final(self).num_of_players() == old(self).num_of_players(),
    {
        proof {
            use_type_invariant(&*self);
        }
        let spread: i32 = if self.num_of_players - 1 > 1 {
            self.num_of_players - 1
        } else {
            1
        };
        let points: u16 = if self.placement == 0 {
            if spread == 1 {
                proof {
                    lemma_scaled_values();
                    assert(1int / 1int == 1) by (nonlinear_arith);
                    assert(award_exponent(0, self.num_of_players as int) == 1);
                }
                1500
            } else {
                proof {
                    lemma_scaled_values();
                    lemma_basic_div(1, spread as int);
                    assert(award_exponent(0, self.num_of_players as int) == 0);
                }
                1000
            }
        } else {
            let steps: i32 = (self.placement - 1) / spread;
            assert(award_exponent(self.placement as int, self.num_of_players as int) == -steps);
            shrunk_award(steps as u32)
        };
        self.placement = self.placement + 1;
        points
    }
}

/// `1000 * (2/3)^steps`, rounded toward zero.
fn shrunk_award(steps: u32) -> (award: u16)
    ensures
        award == scaled_award(-(steps as int)),
{
    if steps >= 18 {
        proof {
            lemma_award_vanishes(steps as nat);
        }
        return 0;
    }
    let mut num: u64 = 1000;
    let mut den: u64 = 1;
    let mut i: u32 = 0;
    while i < steps
        invariant
            i <= steps < 18,
            num == 1000 * power(2, i as nat),
            den == power(3, i as nat),
        decreases steps - i,
    {
        proof {
            lemma_power_monotone(2, i as nat, 16);
            lemma_power_monotone(3, i as nat, 16);
            reveal_with_fuel(power, 17);
            assert(power(2, 16) == 65536);
            assert(power(3, 16) == 43046721);
        }
        num = num * 2;
        den = den * 3;
        i = i + 1;
    }
    proof {
        lemma_power_two_le_three(steps as nat);
        lemma_power_positive(3, steps as nat);
        let a = power(2, steps as nat);
        let b = power(3, steps as nat);
        assert((1000 * a) / b <= 1000) by (nonlinear_arith)
            requires
                a <= b,
                b >= 1,
        ;
    }
    (num / den) as u16
}

/// Past 17 halvings by 1.5 nothing of the 1000 points is left.
proof fn lemma_award_vanishes(steps: nat)
    requires
        steps >= 18,
    ensures
        scaled_award(-(steps as int)) == 0,
{
    lemma_award_vanishes_bound(steps);
    let a = power(2, steps);
    let b = power(3, steps);
    assert(-(-(steps as int)) == steps);
    assert((1000 * a) / b == 0) by (nonlinear_arith)
        requires
            1000 * a < b,
            a >= 0,
    ;
}

proof fn lemma_award_vanishes_bound(steps: nat)
    requires
        steps >= 18,
    ensures
        1000 * power(2, steps) < power(3, steps),
    decreases steps,
{
    if steps == 18 {
        reveal_with_fuel(power, 19);
        assert(power(2, 18) == 262144);
        assert(power(3, 18) == 387420489);
    } else {
        lemma_award_vanishes_bound((steps - 1) as nat);
    }
}

} // verus!

verus! {

proof fn lemma_shrink_step(n: nat)
    ensures
        scaled_award(-((n + 1) as int)) <= scaled_award(-(n as int)),
        scaled_award(-(n as int)) >= 0,
{
    lemma_power_positive(3, n);
    let a = power(2, n);
    let b = power(3, n);
    assert(power(2, n + 1) == 2 * a);
    assert(power(3, n + 1) == 3 * b);
    assert(-(-((n + 1) as int)) == n + 1);
    assert(-(-(n as int)) == n);
    assert((1000 * (2 * a)) / (3 * b) <= (1000 * a) / b) by (nonlinear_arith)
        requires
            a >= 0,
            b >= 1,
    {
        let q = (1000 * a) / b;
        assert(1000 * a < b * (q + 1));
        assert(2 * (1000 * a) < 3 * b * (q + 1));
    }
    assert((1000 * a) / b >= 0) by (nonlinear_arith)
        requires
            a >= 0,
            b >= 1,
    ;
}

proof fn lemma_shrink_monotone(n: nat, m: nat)
    requires
        n <= m,
    ensures
        scaled_award(-(m as int)) <= scaled_award(-(n as int)),
        scaled_award(-(m as int)) >= 0,
    decreases m,
{
    lemma_shrink_step(m);
    if n < m {
        lemma_shrink_monotone(n, (m - 1) as nat);
        lemma_shrink_step((m - 1) as nat);
    }
}

proof fn lemma_exponent_range(placement: int, num_of_players: int)
    requires
        placement >= 0,
    ensures
        award_exponent(placement, num_of_players) <= 1,
        placement >= 1 ==> award_exponent(placement, num_of_players) <= 0,
        placement == 0 ==> award_exponent(placement, num_of_players) >= 0,
        award_exponent(placement + 1, num_of_players) <= award_exponent(placement, num_of_players),
{
    let s = if num_of_players - 1 > 1 {
        num_of_players - 1
    } else {
        1
    };
    if placement == 0 {
        assert(1int / s <= 1) by (nonlinear_arith)
            requires
                s >= 1,
        ;
        assert(1int / s >= 0) by (nonlinear_arith)
            requires
                s >= 1,
        ;
        assert(0int / s == 0) by (nonlinear_arith)
            requires
                s >= 1,
        ;
    } else {
        assert((placement - 1) / s >= 0) by (nonlinear_arith)
            requires
                s >= 1,
                placement >= 1,
        ;
        assert(placement / s >= (placement - 1) / s) by (nonlinear_arith)
            requires
                s >= 1,
                placement >= 1,
        {
            lemma_div_is_ordered(placement - 1, placement, s);
        }
    }
}

proof fn lemma_scaled_values()
    ensures
        scaled_award(1) == 1500,
        scaled_award(0) == 1000,
{
    reveal_with_fuel(power, 2);
    assert(3000int / 2int == 1500) by (nonlinear_arith);
}

/// Of two successive correct guesses in a round, the later one never earns
/// more than the earlier one.
pub proof fn lemma_later_guess_earns_no_more(placement: int, num_of_players: int)
    requires
        placement >= 0,
    ensures
        award_for(placement + 1, num_of_players) <= award_for(placement, num_of_players),
{
    lemma_exponent_range(placement, num_of_players);
    lemma_exponent_range(placement + 1, num_of_players);
    lemma_scaled_values();
    let e0 = award_exponent(placement, num_of_players);
    let e1 = award_exponent(placement + 1, num_of_players);
    if e1 < 0 {
        if e0 < 0 {
            lemma_shrink_monotone((-e0) as nat, (-e1) as nat);
        } else {
            lemma_shrink_monotone(0, (-e1) as nat);
        }
    }
}

/// Every award lies between 0 and 1500 points, and the first correct guess
/// of a round earns at least 1000.
pub proof fn lemma_award_bounds(placement: int, num_of_players: int)
    requires
        placement >= 0,
    ensures
        0 <= award_for(placement, num_of_players) <= 1500,
        placement == 0 ==> award_for(placement, num_of_players) >= 1000,
{
    lemma_exponent_range(placement, num_of_players);
    lemma_scaled_values();
    let e = award_exponent(placement, num_of_players);
    if e < 0 {
        lemma_shrink_monotone(0, (-e) as nat);
    }
}

/// The first correct guess earns 1500 points in a game of at most two
/// players and 1000 in a larger one; in a game of `n >= 3` players, the
/// first `n` correct guesses each earn 1000.
pub proof fn lemma_first_awards(placement: int, num_of_players: int)
    requires
        placement >= 0,
    ensures
        placement == 0 && num_of_players <= 2 ==> award_for(placement, num_of_players) == 1500,
        num_of_players >= 3 && placement < num_of_players ==> award_for(placement, num_of_players) == 1000,
{
    lemma_scaled_values();
    if placement == 0 && num_of_players <= 2 {
        assert(award_exponent(placement, num_of_players) == 1);
    }
    if num_of_players >= 3 && placement < num_of_players {
        let spread = num_of_players - 1;
        if placement == 0 {
            assert(1int / spread == 0) by {
                lemma_basic_div(1, spread);
            }
        } else {
            assert((placement - 1) / spread == 0) by {
                lemma_basic_div(placement - 1, spread);
            }
        }
        assert(award_exponent(placement, num_of_players) == 0);
    }
}

} // verus!
