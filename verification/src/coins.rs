//! Coins and their values in cents.

use vstd::prelude::*;

verus! {

/// The four coins.
#[derive(Clone, Copy, Debug, PartialEq, Eq, Structural)]
pub enum Coin {
    Penny,
    Nickel,
    Dime,
    Quarter,
}

/// The value of a coin in cents.
pub open spec fn spec_value_in_cents(coin: Coin) -> u8 {
    match coin {
        Coin::Penny => 1,
        Coin::Nickel => 5,
        Coin::Dime => 10,
        Coin::Quarter => 25,
    }
}

/// Returns a coin's value in cents.
pub fn value_in_cents(coin: Coin) -> (r: u8)
    ensures
        r == spec_value_in_cents(coin),
{
    match coin {
        Coin::Penny => 1,
        Coin::Nickel => 5,
        Coin::Dime => 10,
        Coin::Quarter => 25,
    }
}

/// The line the verbose variant calls out for a coin.
pub open spec fn spec_coin_line(coin: Coin) -> Seq<char> {
    match coin {
        Coin::Penny => "This is a penny"@,
        Coin::Nickel => "This is a nickel"@,
        Coin::Dime => "This is a dime"@,
        Coin::Quarter => "This is a quarter"@,
    }
}

/// Returns the line naming the coin together with its value in cents.
pub fn value_in_cents_verbose(coin: Coin) -> (r: (String, u8))
    ensures
        r.0@ == spec_coin_line(coin),
        r.1 == spec_value_in_cents(coin),
{
    match coin {
        Coin::Penny => (String::from_str("This is a penny"), 1),
        Coin::Nickel => (String::from_str("This is a nickel"), 5),
        Coin::Dime => (String::from_str("This is a dime"), 10),
        Coin::Quarter => (String::from_str("This is a quarter"), 25),
    }
}

/// The state a quarter commemorates.
#[derive(Clone, Copy, Debug, PartialEq, Eq, Structural)]
pub enum State {
    Alabama,
    Alaska,
    Arizona,
    Arkansas,
}

/// The four coins, with quarters carrying their state.
#[derive(Clone, Copy, Debug, PartialEq, Eq, Structural)]
pub enum CoinWithState {
    Penny,
    Nickel,
    Dime,
    Quarter(State),
}

/// The value in cents of a coin that may carry a state.
pub open spec fn spec_value_with_state(coin: CoinWithState) -> u8 {
    match coin {
        CoinWithState::Penny => 1,
        CoinWithState::Nickel => 5,
        CoinWithState::Dime => 10,
        CoinWithState::Quarter(_) => 25,
    }
}

/// Returns the coin's value in cents; the state on a quarter does not
/// change its value.
pub fn value_in_cents_with_state(coin: CoinWithState) -> (r: u8)
    ensures
        r == spec_value_with_state(coin),
{
    match coin {
        CoinWithState::Penny => 1,
        CoinWithState::Nickel => 5,
        CoinWithState::Dime => 10,
        CoinWithState::Quarter(_state) => 25,
    }
}

} // verus!
