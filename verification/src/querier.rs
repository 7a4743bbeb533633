//! The balance oracle: what the pool holds at the time of an operation.
use vstd::prelude::*;
use crate::error::ContractError;
use crate::state::Config;

verus! {

/// The question that is put to the bank: how much of one asset an address
/// holds.
#[derive(Clone, Debug, PartialEq, Eq)]
pub struct BalanceQuery {
    pub address: String,
    pub denom: String,
}

/// The oracle's answer for one operation: the pool's balance, or nothing
/// when the oracle failed.
#[derive(Clone, Copy, Debug, PartialEq, Eq, Structural)]
pub struct Querier {
    answer: Option<u128>,
}

impl View for Querier {
    type V = Option<u128>;

    closed spec fn view(&self) -> Option<u128> {
        self.answer
    }
}

impl Querier {
    /// An oracle that reports the given balance.
    pub fn new(balance: u128) -> (r: Querier)
        ensures
            r@ == Some(balance),
    {
        Querier { answer: Some(balance) }
    }

    /// An oracle that fails.
    pub fn failing() -> (r: Querier)
        ensures
            r@ == None::<u128>,
    {
        Querier { answer: None }
    }
}

/// The pool's balance is what the engine's own address holds of the
/// configured asset.
pub fn balance_query(config: &Config) -> (r: BalanceQuery)
    ensures
        r.address == config.self_addr,
        r.denom == config.tax_denom,
{
    BalanceQuery { address: config.self_addr.clone(), denom: config.tax_denom.clone() }
}

/// What `check_token_balance` returns for an oracle's answer.
pub open spec fn token_balance(answer: Option<u128>) -> Result<u128, ContractError> {
    match answer {
        Some(balance) => Ok(balance),
        None => Err(ContractError::OracleError),
    }
}

/// The pool's current balance, or the oracle's failure.
pub fn check_token_balance(querier: &Querier) -> (r: Result<u128, ContractError>)
    ensures
        r == token_balance(querier@),
{
    match querier.answer {
        Some(balance) => Ok(balance),
        None => Err(ContractError::OracleError),
    }
}

} // verus!
