use vstd::prelude::*;

verus! {

/// The venue that lists a market.
#[derive(Debug, Clone, Copy, PartialEq, Eq, Structural, Hash)]
pub enum MarketType {
    Polymarket,
    Kalshi,
}

/// The side of a binary market that a token pays out on.
#[derive(Debug, Clone, Copy, PartialEq, Eq, Structural, Hash)]
pub enum Outcome {
    Yes,
    No,
}

/// A tradable token of a market.
#[derive(Debug, Clone, Hash)]
pub struct Token {
    pub market_name: String,
    pub token_id: u64,
    pub outcome: Outcome,
}

impl Token {
    pub fn new(name: String, id: u64, o: Outcome) -> (r: Token)
        ensures
            r.market_name@ == name@,
            r.token_id == id,
            r.outcome == o,
    {
        Token { market_name: name, token_id: id, outcome: o }
    }
}

} // verus!
