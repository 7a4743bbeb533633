//! The reasons for which an operation is rejected.
use vstd::prelude::*;

verus! {

/// Why a set of weights is not accepted.
#[derive(Clone, Copy, Debug, PartialEq, Eq, Structural)]
pub enum WeightsFault {
    /// The number of decimal places is larger than the numbers can hold.
    TooManyDecimalPlaces,
    /// The weights do not add up to exactly 100% at the given precision.
    SumNotWhole,
    /// An address is named more than once.
    AddressTwice,
}

/// A record of the store.
#[derive(Clone, Copy, Debug, PartialEq, Eq, Structural)]
pub enum Record {
    Config,
    TaxPool,
    BeneficiariesList,
    Beneficiary,
}

/// Every way in which an operation can fail. A failed operation changes
/// nothing.
#[derive(Clone, Copy, Debug, PartialEq, Eq, Structural)]
pub enum ContractError {
    /// The weights or their precision are not acceptable.
    InvalidWeights { fault: WeightsFault },
    /// The caller is not the administrator.
    Unauthorized,
    /// The address has no ledger entry.
    NotABeneficiary,
    /// More was requested than the beneficiary can claim.
    InsufficientBalance { available: u128, requested: u128 },
    /// The accumulator has no weight denominator yet.
    Uninitialized,
    /// The balance oracle did not answer.
    OracleError,
    /// A record that the operation needs is not in the store.
    StoreError { missing: Record },
    /// A ledger entry records more paid out than its share allows.
    LedgerInconsistent,
    /// An amount does not fit in 128 bits.
    Overflow,
}

impl ContractError {
    /// The message that goes with the error.
    pub fn message(&self) -> (r: &'static str)
        ensures
            r@ == error_text(*self),
    {
        match self {
            ContractError::InvalidWeights { fault: WeightsFault::TooManyDecimalPlaces } => {
                "The number of decimal places used in the weights is larger than supported"
            },
            ContractError::InvalidWeights { fault: WeightsFault::SumNotWhole } => {
                "The sum of weights must be exactly 100%"
            },
            ContractError::InvalidWeights { fault: WeightsFault::AddressTwice } => {
                "Every beneficiary must be named once only"
            },
            ContractError::Unauthorized => "The address is not allowed to perform this operation",
            ContractError::NotABeneficiary => "cannot load beneficiary",
            ContractError::InsufficientBalance { .. } => "insufficient funds to withdraw",
            ContractError::Uninitialized => "the tax pool has no beneficiaries yet",
            ContractError::OracleError => "cannot query the pool balance",
            ContractError::StoreError { .. } => "a stored record is missing",
            ContractError::LedgerInconsistent => "a beneficiary has withdrawn more than its share",
            ContractError::Overflow => "an amount does not fit in 128 bits",
        }
    }
}

/// The text of each error.
pub open spec fn error_text(e: ContractError) -> Seq<char> {
    match e {
        ContractError::InvalidWeights { fault: WeightsFault::TooManyDecimalPlaces } => {
            "The number of decimal places used in the weights is larger than supported"@
        },
        ContractError::InvalidWeights { fault: WeightsFault::SumNotWhole } => {
            "The sum of weights must be exactly 100%"@
        },
        ContractError::InvalidWeights { fault: WeightsFault::AddressTwice } => {
            "Every beneficiary must be named once only"@
        },
        ContractError::Unauthorized => "The address is not allowed to perform this operation"@,
        ContractError::NotABeneficiary => "cannot load beneficiary"@,
        ContractError::InsufficientBalance { .. } => "insufficient funds to withdraw"@,
        ContractError::Uninitialized => "the tax pool has no beneficiaries yet"@,
        ContractError::OracleError => "cannot query the pool balance"@,
        ContractError::StoreError { .. } => "a stored record is missing"@,
        ContractError::LedgerInconsistent => "a beneficiary has withdrawn more than its share"@,
        ContractError::Overflow => "an amount does not fit in 128 bits"@,
    }
}

} // verus!
