//! The scoring table and the speed curve.

use vstd::prelude::*;

verus! {

/// The fall interval while the piece is accelerated, in milliseconds.
pub const FAST_INTERVAL_MS: u64 = 25;

/// The bonus for clearing several rows at once: nothing for one row, 5 for
/// two, 10 for three, 15 for four, 20 for five and 25 for six or more.
pub open spec fn bonus_of(rows: nat) -> nat {
    if rows <= 1 {
        0
    } else if rows == 2 {
        5
    } else if rows == 3 {
        10
    } else if rows == 4 {
        15
    } else if rows == 5 {
        20
    } else {
        25
    }
}

/// The points that a landing earns: ten for each cleared row, and the bonus.
pub open spec fn award_of(rows: nat) -> nat {
    rows * 10 + bonus_of(rows)
}

/// The fall speed at a given score, in tenths of a step per second.
pub open spec fn speed_of(score: nat) -> nat {
    if score <= 100 {
        12
    } else if score <= 200 {
        16
    } else if score <= 300 {
        20
    } else if score <= 400 {
        30
    } else if score <= 500 {
        40
    } else if score <= 600 {
        50
    } else {
        60
    }
}

/// The time between two falls at a given score, in whole milliseconds.
pub open spec fn fall_interval_of(score: nat) -> nat {
    10000nat / speed_of(score)
}

/// The bonus for clearing `rows` rows at once.
pub fn bonus(rows: u32) -> (points: u64)
    ensures
        points == bonus_of(rows as nat),
{
    match rows {
        0 => 0,
        1 => 0,
        2 => 5,
        3 => 10,
        4 => 15,
        5 => 20,
        _ => 25,
    }
}

/// The points that clearing `rows` rows at once earns.
pub fn award(rows: u32) -> (points: u64)
    ensures
        points == award_of(rows as nat),
{
    rows as u64 * 10 + bonus(rows)
}

/// The time between two falls at a given score, in milliseconds.
pub fn fall_interval(score: u64) -> (millis: u64)
    ensures
        millis == fall_interval_of(score as nat),
        millis > 0,
{
    let tenths: u64 = if score <= 100 {
        12
    } else if score <= 200 {
        16
    } else if score <= 300 {
        20
    } else if score <= 400 {
        30
    } else if score <= 500 {
        40
    } else if score <= 600 {
        50
    } else {
        60
    };
    10000 / tenths
}

/// The speed curve is a step function that never slows down: a higher score
/// never gives a longer interval, and no interval is zero.
pub proof fn lemma_interval_monotonic(lower: nat, higher: nat)
    requires
        lower <= higher,
    ensures
        0 < fall_interval_of(higher) <= fall_interval_of(lower),
{
}

} // verus!
