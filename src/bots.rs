use vstd::prelude::*;
use crate::hand::HoleCards;

verus! {

/// Difficulty tiers for bot play style and mistake rate.
#[derive(Debug, Clone, Copy, PartialEq, Eq, Structural)]
#[non_exhaustive]
pub enum Difficulty {
    Easy,
    Medium,
    Hard,
    Expert,
}

/// A seat's position relative to the dealer button.
#[derive(Debug, Clone, Copy, PartialEq, Eq, Structural)]
pub enum PositionBucket {
    HeadsUp,
    Button,
    SmallBlind,
    BigBlind,
    Early,
    Middle,
    Late,
}

/// Position of `seat` at a table of `num_players` with the button at
/// `dealer`, counted by its distance clockwise from the button: heads-up at two players or fewer; button, small blind and big
/// blind for the first three seats from the button; the other seats split
/// in thirds into early, middle and late (late when at most one remains).
pub open spec fn position_of(seat: int, dealer: int, num_players: int) -> PositionBucket {
    let dist = if seat >= dealer {
        seat - dealer
    } else {
        seat + num_players - dealer
    };
    let others = num_players - 3;
    let rel = dist - 3;
    if num_players <= 2 {
        PositionBucket::HeadsUp
    } else if dist == 0 {
        PositionBucket::Button
    } else if dist == 1 {
        PositionBucket::SmallBlind
    } else if dist == 2 {
        PositionBucket::BigBlind
    } else if others <= 1 {
        PositionBucket::Late
    } else if rel < others / 3 {
        PositionBucket::Early
    } else if rel < (2 * others) / 3 {
        PositionBucket::Middle
    } else {
        PositionBucket::Late
    }
}

/// The position bucket of a seat.
pub fn position_bucket(seat: usize, dealer: usize, num_players: usize) -> (r: PositionBucket)
    requires
        seat < num_players,
        dealer < num_players,
    ensures
        r == position_of(seat as int, dealer as int, num_players as int),
{
    if num_players <= 2 {
        return PositionBucket::HeadsUp;
    }
    let dist = if seat >= dealer {
        seat - dealer
    } else {
        num_players - (dealer - seat)
    };
    if dist == 0 {
        return PositionBucket::Button;
    }
    if dist == 1 {
        return PositionBucket::SmallBlind;
    }
    if dist == 2 {
        return PositionBucket::BigBlind;
    }
    let others = num_players - 3;
    if others <= 1 {
        return PositionBucket::Late;
    }
    let rel = dist - 3;
    if rel < others / 3 {
        PositionBucket::Early
    } else if rel < two_thirds(others) {
        PositionBucket::Middle
    } else {
        PositionBucket::Late
    }
}

/// `(2 * x) / 3`, computed without overflow.
fn two_thirds(x: usize) -> (r: usize)
    ensures
        r == (2 * x as int) / 3,
{
    let q = x / 3;
    let m = x % 3;
    proof {
        vstd::arithmetic::div_mod::lemma_fundamental_div_mod(x as int, 3);
        assert(x as int == 3 * q + m);
        assert((2 * x as int) / 3 == 2 * q + (2 * m as int) / 3) by (nonlinear_arith)
            requires
                x as int == 3 * q + m,
                0 <= m < 3,
                q >= 0,
        ;
    }
    q * 2 + (m * 2) / 3
}

/// Whether two hole-card ranks (`a`, `b` as values 2..=14, `suited` when
/// the suits agree) are in the opening range of a position.
pub open spec fn in_range(a: int, b: int, suited: bool, position: PositionBucket) -> bool {
    let high = if a >= b {
        a
    } else {
        b
    };
    let low = if a >= b {
        b
    } else {
        a
    };
    let pair = a == b;
    let gap = high - low;
    let broadway = high >= 10 && low >= 10;
    match position {
        PositionBucket::HeadsUp => pair || high >= 2,
        PositionBucket::Early => if pair {
            high >= 7
        } else {
            (suited && ((high == 14 && low >= 11) || (high == 13 && low >= 12))) || (!suited && (high
                == 13 || high == 14) && low >= 12) || (suited && gap == 1 && high >= 9)
        },
        PositionBucket::Middle => if pair {
            high >= 5
        } else {
            (suited && ((high == 14 && low >= 10) || (high == 13 && low >= 11))) || (suited
                && broadway) || (!suited && (high == 13 || high == 14) && low >= 11) || (suited && gap
                == 1 && high >= 8)
        },
        PositionBucket::Late | PositionBucket::Button => pair || (suited && high == 14) || (suited
            && broadway) || (!suited && high == 14 && low >= 10) || (!suited && high >= 11 && low
            >= 10) || (suited && ((gap == 1 && high >= 7) || (gap == 2 && high >= 10))),
        PositionBucket::SmallBlind | PositionBucket::BigBlind => pair || (suited && high == 14) || (
        !suited && high == 14 && low >= 9) || (!suited && high >= 10 && low >= 10) || (suited && ((
        gap == 1 && high >= 6) || (gap == 2 && high >= 9))),
    }
}

/// Whether the hole cards are in the preflop opening range of a position.
pub fn preflop_in_range(hole: &HoleCards, position: PositionBucket) -> (r: bool)
    ensures
        r == in_range(
            hole@.0.rank.spec_value(),
            hole@.1.rank.spec_value(),
            hole@.0.suit == hole@.1.suit,
            position,
        ),
{
    let a = hole.first().rank().value();
    let b = hole.second().rank().value();
    let high = if a >= b {
        a
    } else {
        b
    };
    let low = if a >= b {
        b
    } else {
        a
    };
    let suited = hole.first().suit() == hole.second().suit();
    let pair = a == b;
    let gap = high - low;
    let is_broadway = high >= 10 && low >= 10;
    match position {
        PositionBucket::HeadsUp => {
            if pair {
                return true;
            }
            if suited && high >= 2 {
                return true;
            }
            high >= 2
        },
        PositionBucket::Early => {
            if pair {
                return high >= 7;
            }
            if suited && ((high == 14 && low >= 11) || (high == 13 && low >= 12)) {
                return true;
            }
            if !suited && (high == 13 || high == 14) && low >= 12 {
                return true;
            }
            suited && gap == 1 && high >= 9
        },
        PositionBucket::Middle => {
            if pair {
                return high >= 5;
            }
            if suited && ((high == 14 && low >= 10) || (high == 13 && low >= 11)) {
                return true;
            }
            if suited && is_broadway {
                return true;
            }
            if !suited && (high == 13 || high == 14) && low >= 11 {
                return true;
            }
            suited && gap == 1 && high >= 8
        },
        PositionBucket::Late | PositionBucket::Button => {
            if pair {
                return true;
            }
            if suited && high == 14 {
                return true;
            }
            if suited && is_broadway {
                return true;
            }
            if !suited && high == 14 && low >= 10 {
                return true;
            }
            if !suited && high >= 11 && low >= 10 {
                return true;
            }
            suited && ((gap == 1 && high >= 7) || (gap == 2 && high >= 10))
        },
        PositionBucket::SmallBlind | PositionBucket::BigBlind => {
            if pair {
                return true;
            }
            if suited && high == 14 {
                return true;
            }
            if !suited && high == 14 && low >= 9 {
                return true;
            }
            if !suited && high >= 10 && low >= 10 {
                return true;
            }
            suited && ((gap == 1 && high >= 6) || (gap == 2 && high >= 9))
        },
    }
}

} // verus!

verus! {

/// Whether a bot should act now, and the deadline it keeps. Without a
/// delay it acts at once; otherwise its first look sets a deadline `delay_ms`
/// after `now_ms` and waits, and it acts once the deadline has passed,
/// clearing it.
pub fn bot_wait_step(delay_ms: u64, deadline_ms: Option<u64>, now_ms: u64) -> (r: (bool, Option<u64>))
    ensures
        delay_ms == 0 ==> r == (true, None::<u64>),
        delay_ms > 0 && deadline_ms is None ==> r == (false, Some(
            if now_ms as int + delay_ms as int > u64::MAX {
                u64::MAX
            } else {
                (now_ms + delay_ms) as u64
            },
        )),
        delay_ms > 0 ==> (deadline_ms matches Some(d) ==> r == if now_ms < d {
            (false, deadline_ms)
        } else {
            (true, None::<u64>)
        }),
{
    if delay_ms == 0 {
        return (true, None);
    }
    match deadline_ms {
        None => {
            let d = if delay_ms > u64::MAX - now_ms {
                u64::MAX
            } else {
                now_ms + delay_ms
            };
            (false, Some(d))
        },
        Some(d) => {
            if now_ms < d {
                (false, deadline_ms)
            } else {
                (true, None)
            }
        },
    }
}

/// Heads-up preflop, facing only the blind (the current bet equals the
/// minimum raise) with chips to call, a bot never folds: it calls.
pub fn must_defend_blind(
    preflop: bool,
    num_players: usize,
    current_bet: u64,
    min_raise: u64,
    to_call: u64,
) -> (r: bool)
    ensures
        r == (preflop && num_players == 2 && current_bet == min_raise && to_call > 0),
{
    preflop && num_players == 2 && current_bet == min_raise && to_call > 0
}

} // verus!
