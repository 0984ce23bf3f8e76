//! The guessing game's decisions: drawing a secret, reading a guess from a
//! line of input, and judging the guess.

use crate::text::{all_digits, dec_value, parse_u32, trim_of, trim_str};
use rand::Rng;
use vstd::prelude::*;

verus! {

/// How a guess relates to the secret.
#[derive(Clone, Copy, Debug, PartialEq, Eq, Structural)]
pub enum GuessOutcome {
    TooSmall,
    TooBig,
    Correct,
}

/// Relies on `rand::Rng::gen_range` over the inclusive range `lo..=hi`:
/// the sample lies within the bounds (an empty range would panic).
#[verifier::external_body]
fn draw_in_range(lo: u32, hi: u32) -> (r: u32)
    requires
        lo <= hi,
    ensures
        lo <= r <= hi,
{
    rand::thread_rng().gen_range(lo..=hi)
}

/// Draws a fresh secret between `lo` and `hi`, both included.
pub fn pick_secret(lo: u32, hi: u32) -> (r: u32)
    requires
        lo <= hi,
    ensures
        lo <= r <= hi,
{
    draw_in_range(lo, hi)
}

/// Judges a guess against the secret.
pub fn evaluate_guess(guess: u32, secret: u32) -> (r: GuessOutcome)
    ensures
        (r == GuessOutcome::TooSmall) == (guess < secret),
        (r == GuessOutcome::TooBig) == (guess > secret),
        (r == GuessOutcome::Correct) == (guess == secret),
{
    if guess < secret {
        GuessOutcome::TooSmall
    } else if guess > secret {
        GuessOutcome::TooBig
    } else {
        GuessOutcome::Correct
    }
}

/// Reads a guess from one line of input: surrounding whitespace is
/// stripped, and what remains must be decimal digits denoting a `u32`.
pub fn parse_guess(line: &str) -> (r: Option<u32>)
    ensures
        match r {
            Some(n) => {
                let t = trim_of(line@);
                t.len() > 0 && all_digits(t) && n as int == dec_value(t)
            },
            None => {
                let t = trim_of(line@);
                t.len() == 0 || !all_digits(t) || dec_value(t) > u32::MAX
            },
        },
{
    parse_u32(trim_str(line))
}

} // verus!
