//! The commands and queries that the engine accepts, and what it answers.
use vstd::prelude::*;
use crate::querier::Querier;
use crate::state::Beneficiary;
use crate::store::Storage;

verus! {

/// The command that sets the engine up.
#[derive(Clone, Debug, PartialEq, Eq)]
pub struct InitMsg {
    pub tax_denom: Option<String>,
    pub beneficiaries: Vec<Beneficiary>,
    pub decimal_places_in_weights: u8,
}

/// The commands that change the engine's state or move value.
#[derive(Clone, Debug, PartialEq, Eq)]
pub enum HandleMsg {
    Withdraw { amount: Option<u128> },
    ChangeAdmin { new_admin: String },
    SetBeneficiaries { beneficiaries: Vec<Beneficiary>, decimal_places_in_weights: u8 },
    EmergencyWithdraw {  },
}

/// The questions that the engine answers.
#[derive(Clone, Debug, PartialEq, Eq)]
pub enum QueryMsg {
    GetBeneficiaries {  },
    GetBeneficiaryBalance { address: String },
    GetAdmin {  },
}

/// One beneficiary as a query reports it.
#[derive(Clone, Debug, PartialEq, Eq)]
pub struct QueryBeneficiary {
    pub address: String,
    pub weight: u16,
    pub withdrawn: u128,
}

/// The answers to the queries.
#[derive(Clone, Debug, PartialEq, Eq)]
pub enum QueryAnswer {
    GetBeneficiaries { beneficiaries: Vec<QueryBeneficiary> },
    GetBeneficiaryBalance { balance: u128 },
    GetAdmin { address: String },
}

/// Who sent a command, and the engine's own address.
#[derive(Clone, Debug, PartialEq, Eq)]
pub struct Env {
    pub contract_address: String,
    pub sender: String,
}

/// What an operation works on: the store and the balance oracle.
pub struct Deps {
    pub storage: Storage,
    pub querier: Querier,
}

/// An instruction to send an amount of one asset from one address to
/// another. The engine only emits it; the host carries it out.
#[derive(Clone, Debug, PartialEq, Eq)]
pub struct Transfer {
    pub from_address: String,
    pub to_address: String,
    pub denom: String,
    pub amount: u128,
}

/// One attribute of the event that an operation records.
#[derive(Clone, Debug, PartialEq, Eq)]
pub enum LogAttribute {
    /// `tax_withdrawn`: the beneficiary that was paid.
    TaxWithdrawn { address: String },
    /// `amount`: how much was paid.
    Amount { amount: u128 },
    /// `changed_admin`: the new administrator.
    ChangedAdmin { address: String },
    /// `beneficiaries updated`: the new set of beneficiaries.
    BeneficiariesUpdated { beneficiaries: Vec<Beneficiary> },
    /// `emergency_withdraw`: the administrator that swept the pool.
    EmergencyWithdraw { address: String },
}

/// What a command answers: the transfers to carry out and the event.
#[derive(Clone, Debug, PartialEq, Eq)]
pub struct HandleResponse {
    pub messages: Vec<Transfer>,
    pub log: Vec<LogAttribute>,
}

/// What setting the engine up answers: nothing to carry out.
#[derive(Clone, Debug, PartialEq, Eq)]
pub struct InitResponse {
    pub messages: Vec<Transfer>,
    pub log: Vec<LogAttribute>,
}

impl HandleMsg {
    /// Whether carrying out the command can take the pool's balance into
    /// account. For the other commands the oracle need not be asked.
    pub fn reads_balance(&self) -> (r: bool)
        ensures
            r == !(self is ChangeAdmin),
    {
        match self {
            HandleMsg::Withdraw { .. } => true,
            HandleMsg::ChangeAdmin { .. } => false,
            HandleMsg::SetBeneficiaries { .. } => true,
            HandleMsg::EmergencyWithdraw {  } => true,
        }
    }
}

impl QueryMsg {
    /// Whether answering the question can take the pool's balance into
    /// account. For the other questions the oracle need not be asked.
    pub fn reads_balance(&self) -> (r: bool)
        ensures
            r == (self is GetBeneficiaryBalance),
    {
        match self {
            QueryMsg::GetBeneficiaries {  } => false,
            QueryMsg::GetBeneficiaryBalance { .. } => true,
            QueryMsg::GetAdmin {  } => false,
        }
    }
}

} // verus!
