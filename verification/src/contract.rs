//! The operations of the engine: setting it up, withdrawing, the
//! administrator's commands, and the queries.
use vstd::prelude::*;
use crate::error::{ContractError, Record};
use crate::msg::{
    Deps, Env, HandleMsg, HandleResponse, InitMsg, InitResponse, LogAttribute, QueryAnswer,
    QueryBeneficiary, QueryMsg, Transfer,
};
use crate::querier::{check_token_balance, token_balance};
use crate::state::{
    addresses_of, admitted, claimable, fresh_pool, lemma_share_bounded, updated, weights_verdict,
    BeneficiariesList, Beneficiary, Config, StoredBeneficiary, TaxPool,
};
use crate::store::{lookup, with_entry, Ledger, StorageView};
use crate::util::{
    entry_or_empty, send_native_token_msg, settled, settlement_log, settlement_messages,
    withdraw_tax_for_everyone, Settlement,
};

verus! {

/// What a withdrawal changes: the beneficiary's entry, the accumulator, and
/// the amount that is paid.
pub struct Withdrawal {
    pub entry: StoredBeneficiary,
    pub pool: TaxPool,
    pub paid: u128,
}

/// Pays a beneficiary out of an up-to-date accumulator. Without a requested
/// amount all that can be claimed is paid; more than that is never paid. The
/// payment is added to what the entry and the accumulator record as paid.
pub open spec fn payout(entry: StoredBeneficiary, pool: TaxPool, amount: Option<u128>) -> Result<
    Withdrawal,
    ContractError,
> {
    match claimable(entry, pool) {
        Err(e) => Err(e),
        Ok(available) => {
            let requested = match amount {
                Some(a) => a,
                None => available,
            };
            if requested > available {
                Err(ContractError::InsufficientBalance { available, requested })
            } else if pool.total_withdrawn + requested > u128::MAX {
                Err(ContractError::Overflow)
            } else {
                Ok(
                    Withdrawal {
                        entry: StoredBeneficiary {
                            weight: entry.weight,
                            withdrawn: (entry.withdrawn + requested) as u128,
                        },
                        pool: TaxPool {
                            total_withdrawn: (pool.total_withdrawn + requested) as u128,
                            ..pool
                        },
                        paid: requested,
                    },
                )
            }
        },
    }
}

/// What `withdraw` decides for the sender of a command: the sender must have
/// a ledger entry, the configuration and the accumulator must be stored, and
/// the oracle must answer; then the accumulator is brought up to date and the
/// sender is paid from it.
pub open spec fn withdrawal(
    store: StorageView,
    answer: Option<u128>,
    sender: Seq<char>,
    amount: Option<u128>,
) -> Result<Withdrawal, ContractError> {
    match lookup(store.ledger, sender) {
        None => Err(ContractError::NotABeneficiary),
        Some(entry) => match store.config {
            None => Err(ContractError::StoreError { missing: Record::Config }),
            Some(_) => match store.tax_pool {
                None => Err(ContractError::StoreError { missing: Record::TaxPool }),
                Some(pool) => match updated(pool, answer) {
                    Err(e) => Err(e),
                    Ok(current) => payout(entry, current, amount),
                },
            },
        },
    }
}

/// The store after a withdrawal: the sender's entry and the accumulator
/// record the payment, and the accumulator is up to date.
pub open spec fn after_withdrawal(
    store: StorageView,
    sender: Seq<char>,
    w: Withdrawal,
) -> StorageView {
    StorageView {
        tax_pool: Some(w.pool),
        ledger: with_entry(store.ledger, sender, w.entry),
        ..store
    }
}

/// What holds after `withdraw`: the sender is sent what `withdrawal` grants,
/// or the command is rejected and nothing changes.
pub open spec fn withdraw_ensures(
    before: Deps,
    env: Env,
    amount: Option<u128>,
    after: Deps,
    r: Result<HandleResponse, ContractError>,
) -> bool {
    match withdrawal(before.storage@, before.querier@, env.sender@, amount) {
        Ok(w) => {
            &&& r is Ok
            &&& r.unwrap().messages@ == seq![
                Transfer {
                    from_address: before.storage@.config.unwrap().self_addr,
                    to_address: env.sender,
                    denom: before.storage@.config.unwrap().tax_denom,
                    amount: w.paid,
                },
            ]
            &&& r.unwrap().log@ == seq![
                LogAttribute::TaxWithdrawn { address: env.sender },
                LogAttribute::Amount { amount: w.paid },
            ]
            &&& after.querier == before.querier
            &&& after.storage@ == after_withdrawal(before.storage@, env.sender@, w)
        },
        Err(e) => r == Err::<HandleResponse, ContractError>(e) && after == before,
    }
}

/// Pays the sender out of its share of the pool: the requested amount, or
/// all that it can claim when none is given.
pub fn withdraw(deps: &mut Deps, env: Env, amount: Option<u128>) -> (r: Result<
    HandleResponse,
    ContractError,
>)
    ensures
        withdraw_ensures(*old(deps), env, amount, *final(deps), r),
{
    let mut beneficiary = match StoredBeneficiary::load(&deps.storage, &env.sender) {
        Ok(beneficiary) => beneficiary,
        Err(_) => {
            return Err(ContractError::NotABeneficiary);
        },
    };
    let config = Config::load(&deps.storage)?;
    let mut tax_pool = TaxPool::load_updated(&deps.storage, &deps.querier)?;
    let beneficiary_balance = beneficiary.get_balance(&tax_pool)?;
    let amount = match amount {
        Some(amount) => amount,
        None => beneficiary_balance,
    };
    if amount > beneficiary_balance {
        return Err(
            ContractError::InsufficientBalance {
                available: beneficiary_balance,
                requested: amount,
            },
        );
    }
    tax_pool.record_payout(amount)?;
    proof {
        lemma_share_bounded(beneficiary.weight, tax_pool.acc_tax_per_share);
    }
    beneficiary.withdrawn = beneficiary.withdrawn + amount;
    beneficiary.save(&mut deps.storage, &env.sender);
    tax_pool.save(&mut deps.storage);

    let mut messages: Vec<Transfer> = Vec::new();
    messages.push(send_native_token_msg(&env.sender, amount, &config));
    let mut log: Vec<LogAttribute> = Vec::new();
    log.push(LogAttribute::TaxWithdrawn { address: env.sender });
    log.push(LogAttribute::Amount { amount });
    assert(messages@ =~= seq![
        Transfer {
            from_address: config.self_addr,
            to_address: env.sender,
            denom: config.tax_denom,
            amount,
        },
    ]);
    assert(log@ =~= seq![
        LogAttribute::TaxWithdrawn { address: env.sender },
        LogAttribute::Amount { amount },
    ]);
    Ok(HandleResponse { messages, log })
}

/// What holds after `change_admin`: only the administrator may name a new
/// one, and nothing else changes.
pub open spec fn change_admin_ensures(
    before: Deps,
    env: Env,
    new_admin: String,
    after: Deps,
    r: Result<HandleResponse, ContractError>,
) -> bool {
    match before.storage@.config {
        None => r == Err::<HandleResponse, ContractError>(
            ContractError::StoreError { missing: Record::Config },
        ) && after == before,
        Some(config) => if env.sender@ != config.admin@ {
            r == Err::<HandleResponse, ContractError>(ContractError::Unauthorized) && after
                == before
        } else {
            &&& r is Ok
            &&& r.unwrap().messages@ == Seq::<Transfer>::empty()
            &&& r.unwrap().log@ == seq![LogAttribute::ChangedAdmin { address: new_admin }]
            &&& after.querier == before.querier
            &&& after.storage@ == (StorageView {
                config: Some(Config { admin: new_admin, ..config }),
                ..before.storage@
            })
        },
    }
}

/// Hands the administration over to another address.
pub fn change_admin(deps: &mut Deps, env: Env, new_admin: String) -> (r: Result<
    HandleResponse,
    ContractError,
>)
    ensures
        change_admin_ensures(*old(deps), env, new_admin, *final(deps), r),
{
    let mut config = Config::load(&deps.storage)?;
    config.assert_admin(&env.sender)?;
    config.admin = new_admin.clone();
    config.save(&mut deps.storage);

    let mut log: Vec<LogAttribute> = Vec::new();
    log.push(LogAttribute::ChangedAdmin { address: new_admin });
    assert(log@ =~= seq![LogAttribute::ChangedAdmin { address: new_admin }]);
    Ok(HandleResponse { messages: Vec::new(), log })
}

/// What `emergency_withdraw` decides: the sender must be the administrator
/// and the oracle must answer; then the whole balance is swept.
pub open spec fn sweep(store: StorageView, answer: Option<u128>, sender: Seq<char>) -> Result<
    u128,
    ContractError,
> {
    match store.config {
        None => Err(ContractError::StoreError { missing: Record::Config }),
        Some(config) => if sender != config.admin@ {
            Err(ContractError::Unauthorized)
        } else {
            token_balance(answer)
        },
    }
}

/// What holds after `emergency_withdraw`: the administrator is sent the
/// whole balance of the pool, and the store stays as it is.
pub open spec fn emergency_withdraw_ensures(
    before: Deps,
    env: Env,
    after: Deps,
    r: Result<HandleResponse, ContractError>,
) -> bool {
    &&& after == before
    &&& match sweep(before.storage@, before.querier@, env.sender@) {
        Err(e) => r == Err::<HandleResponse, ContractError>(e),
        Ok(balance) => {
            let config = before.storage@.config.unwrap();
            &&& r is Ok
            &&& r.unwrap().messages@ == if balance > 0 {
                seq![
                    Transfer {
                        from_address: config.self_addr,
                        to_address: env.sender,
                        denom: config.tax_denom,
                        amount: balance,
                    },
                ]
            } else {
                Seq::<Transfer>::empty()
            }
            &&& r.unwrap().log@ == seq![
                LogAttribute::EmergencyWithdraw { address: env.sender },
                LogAttribute::Amount { amount: balance },
            ]
        },
    }
}

/// Sweeps the whole balance of the pool to the administrator. The ledger is
/// not touched: what the beneficiaries could claim before is no longer
/// covered by the pool afterwards.
pub fn emergency_withdraw(deps: &mut Deps, env: Env) -> (r: Result<HandleResponse, ContractError>)
    ensures
        emergency_withdraw_ensures(*old(deps), env, *final(deps), r),
{
    let config = Config::load(&deps.storage)?;
    config.assert_admin(&env.sender)?;
    let balance = check_token_balance(&deps.querier)?;
    let mut messages: Vec<Transfer> = Vec::new();
    if balance > 0 {
        messages.push(send_native_token_msg(&env.sender, balance, &config));
    }
    let mut log: Vec<LogAttribute> = Vec::new();
    log.push(LogAttribute::EmergencyWithdraw { address: env.sender });
    log.push(LogAttribute::Amount { amount: balance });
    assert(balance > 0 ==> messages@ =~= seq![
        Transfer {
            from_address: config.self_addr,
            to_address: env.sender,
            denom: config.tax_denom,
            amount: balance,
        },
    ]);
    assert(log@ =~= seq![
        LogAttribute::EmergencyWithdraw { address: env.sender },
        LogAttribute::Amount { amount: balance },
    ]);
    Ok(HandleResponse { messages, log })
}

/// Whether a list of beneficiaries can become the current one, and with
/// which accumulator it starts: the weights must be exactly 100% at the given
/// precision, and the denominator must fit the accumulator.
pub open spec fn admission(beneficiaries: Seq<Beneficiary>, decimal_places: u8) -> Result<
    TaxPool,
    ContractError,
> {
    match weights_verdict(beneficiaries, decimal_places) {
        Err(e) => Err(e),
        Ok(()) => fresh_pool(decimal_places),
    }
}

/// Decides whether a list of beneficiaries can become the current one.
pub fn check_admission(
    beneficiaries: &Vec<Beneficiary>,
    decimal_places_in_weights: u8,
) -> (r: Result<TaxPool, ContractError>)
    ensures
        r == admission(beneficiaries@, decimal_places_in_weights),
{
    BeneficiariesList::assert_valid_beneficiaries(beneficiaries, decimal_places_in_weights)?;
    TaxPool::fresh(decimal_places_in_weights)
}

/// The asset that is distributed when none is named.
pub open spec fn default_denom() -> Seq<char> {
    "uscrt"@
}

/// What holds after `init`: a valid list of beneficiaries is installed with
/// the sender as administrator; any other list changes nothing.
pub open spec fn init_ensures(
    before: Deps,
    env: Env,
    msg: InitMsg,
    after: Deps,
    r: Result<InitResponse, ContractError>,
) -> bool {
    match admission(msg.beneficiaries@, msg.decimal_places_in_weights) {
        Err(e) => r == Err::<InitResponse, ContractError>(e) && after == before,
        Ok(pool) => {
            &&& r is Ok
            &&& r.unwrap().messages@ == Seq::<Transfer>::empty()
            &&& r.unwrap().log@ == Seq::<LogAttribute>::empty()
            &&& after.querier == before.querier
            &&& after.storage@.config matches Some(config)
            &&& config.self_addr == env.contract_address
            &&& config.admin == env.sender
            &&& config.tax_denom@ == match msg.tax_denom {
                Some(denom) => denom@,
                None => default_denom(),
            }
            &&& after.storage@ == (StorageView {
                config: after.storage@.config,
                tax_pool: Some(pool),
                beneficiaries_list: Some(addresses_of(msg.beneficiaries@)),
                ledger: admitted(before.storage@.ledger, msg.beneficiaries@),
            })
        },
    }
}

/// Sets the engine up: the sender becomes the administrator, the given
/// beneficiaries are admitted, and the accumulator starts at zero.
pub fn init(deps: &mut Deps, env: Env, msg: InitMsg) -> (r: Result<InitResponse, ContractError>)
    ensures
        init_ensures(*old(deps), env, msg, *final(deps), r),
{
    let tax_pool = check_admission(&msg.beneficiaries, msg.decimal_places_in_weights)?;
    let tax_denom = match &msg.tax_denom {
        Some(denom) => denom.clone(),
        None => "uscrt".to_owned(),
    };
    let config = Config {
        self_addr: env.contract_address.clone(),
        admin: env.sender.clone(),
        tax_denom,
    };
    config.save(&mut deps.storage);
    BeneficiariesList::save(
        &mut deps.storage,
        &msg.beneficiaries,
        msg.decimal_places_in_weights,
    )?;
    tax_pool.save(&mut deps.storage);
    Ok(InitResponse { messages: Vec::new(), log: Vec::new() })
}

/// What `set_beneficiaries` decides: the sender must be the administrator,
/// the accumulator is brought up to date, every current beneficiary is
/// settled against it, and the new list must be admissible.
pub open spec fn replacement(
    store: StorageView,
    answer: Option<u128>,
    sender: Seq<char>,
    new_beneficiaries: Seq<Beneficiary>,
    decimal_places: u8,
) -> Result<(Settlement, TaxPool), ContractError> {
    match store.config {
        None => Err(ContractError::StoreError { missing: Record::Config }),
        Some(config) => if sender != config.admin@ {
            Err(ContractError::Unauthorized)
        } else {
            match store.tax_pool {
                None => Err(ContractError::StoreError { missing: Record::TaxPool }),
                Some(pool) => match updated(pool, answer) {
                    Err(e) => Err(e),
                    Ok(current) => match store.beneficiaries_list {
                        None => Err(
                            ContractError::StoreError { missing: Record::BeneficiariesList },
                        ),
                        Some(list) => match settled(store.ledger, list, current) {
                            Err(e) => Err(e),
                            Ok(outcome) => match admission(new_beneficiaries, decimal_places) {
                                Err(e) => Err(e),
                                Ok(fresh) => Ok((outcome, fresh)),
                            },
                        },
                    },
                },
            }
        },
    }
}

/// The store after the set of beneficiaries was replaced: the new list with
/// fresh entries, and an accumulator that starts at zero.
pub open spec fn after_replacement(
    store: StorageView,
    outcome: Settlement,
    fresh: TaxPool,
    new_beneficiaries: Seq<Beneficiary>,
) -> StorageView {
    StorageView {
        config: store.config,
        tax_pool: Some(fresh),
        beneficiaries_list: Some(addresses_of(new_beneficiaries)),
        ledger: admitted(outcome.ledger, new_beneficiaries),
    }
}

/// What holds after `set_beneficiaries`: every beneficiary of the old list is
/// sent all that it could claim and its entry is deleted, then the new list
/// is admitted with an accumulator that starts at zero. A command that is
/// rejected changes nothing.
pub open spec fn set_beneficiaries_ensures(
    before: Deps,
    env: Env,
    new_beneficiaries: Vec<Beneficiary>,
    decimal_places: u8,
    after: Deps,
    r: Result<HandleResponse, ContractError>,
) -> bool {
    match replacement(
        before.storage@,
        before.querier@,
        env.sender@,
        new_beneficiaries@,
        decimal_places,
    ) {
        Err(e) => r == Err::<HandleResponse, ContractError>(e) && after == before,
        Ok((outcome, fresh)) => {
            let list = before.storage@.beneficiaries_list.unwrap();
            &&& r is Ok
            &&& r.unwrap().messages@ == settlement_messages(
                before.storage@.config.unwrap(),
                list,
                outcome.payments,
            )
            &&& r.unwrap().log@ == settlement_log(list, outcome.payments).push(
                LogAttribute::BeneficiariesUpdated { beneficiaries: new_beneficiaries },
            )
            &&& after.querier == before.querier
            &&& after.storage@ == after_replacement(
                before.storage@,
                outcome,
                fresh,
                new_beneficiaries@,
            )
        },
    }
}

/// Replaces the set of beneficiaries, after settling the current one.
pub fn set_beneficiaries(
    deps: &mut Deps,
    env: Env,
    new_beneficiaries: Vec<Beneficiary>,
    decimal_places_in_weights: u8,
) -> (r: Result<HandleResponse, ContractError>)
    ensures
        set_beneficiaries_ensures(
            *old(deps),
            env,
            new_beneficiaries,
            decimal_places_in_weights,
            *final(deps),
            r,
        ),
{
    let config = Config::load(&deps.storage)?;
    config.assert_admin(&env.sender)?;
    let tax_pool = TaxPool::load_updated(&deps.storage, &deps.querier)?;
    let current_beneficiaries = BeneficiariesList::load(&deps.storage)?;

    // Send all tokens to existing beneficiaries and delete
    let mut work = deps.storage.snapshot();
    let (messages, mut log) = withdraw_tax_for_everyone(
        &mut work,
        &config,
        &tax_pool,
        &current_beneficiaries,
    )?;

    // Reset everything
    let fresh = check_admission(&new_beneficiaries, decimal_places_in_weights)?;
    BeneficiariesList::save(&mut work, &new_beneficiaries, decimal_places_in_weights)?;
    fresh.save(&mut work);
    deps.storage = work;

    log.push(LogAttribute::BeneficiariesUpdated { beneficiaries: new_beneficiaries });
    Ok(HandleResponse { messages, log })
}

/// What holds after `handle`: what holds after the operation that the
/// command names.
pub open spec fn handle_ensures(
    before: Deps,
    env: Env,
    msg: HandleMsg,
    after: Deps,
    r: Result<HandleResponse, ContractError>,
) -> bool {
    match msg {
        HandleMsg::Withdraw { amount } => withdraw_ensures(before, env, amount, after, r),
        HandleMsg::ChangeAdmin { new_admin } => change_admin_ensures(
            before,
            env,
            new_admin,
            after,
            r,
        ),
        HandleMsg::SetBeneficiaries {
            beneficiaries,
            decimal_places_in_weights,
        } => set_beneficiaries_ensures(
            before,
            env,
            beneficiaries,
            decimal_places_in_weights,
            after,
            r,
        ),
        HandleMsg::EmergencyWithdraw {  } => emergency_withdraw_ensures(before, env, after, r),
    }
}

/// Carries out a command.
pub fn handle(deps: &mut Deps, env: Env, msg: HandleMsg) -> (r: Result<
    HandleResponse,
    ContractError,
>)
    ensures
        handle_ensures(*old(deps), env, msg, *final(deps), r),
{
    match msg {
        HandleMsg::Withdraw { amount } => withdraw(deps, env, amount),
        HandleMsg::ChangeAdmin { new_admin } => change_admin(deps, env, new_admin),
        HandleMsg::SetBeneficiaries {
            beneficiaries,
            decimal_places_in_weights,
        } => set_beneficiaries(deps, env, beneficiaries, decimal_places_in_weights),
        HandleMsg::EmergencyWithdraw {  } => emergency_withdraw(deps, env),
    }
}

/// The beneficiaries as a query reports them: each listed address with the
/// weight and the paid amount of its ledger entry, or zeros without one.
pub open spec fn reported(list: Seq<String>, ledger: Ledger) -> Seq<QueryBeneficiary> {
    Seq::new(
        list.len(),
        |i: int|
            QueryBeneficiary {
                address: list[i],
                weight: entry_or_empty(ledger, list[i]@).weight,
                withdrawn: entry_or_empty(ledger, list[i]@).withdrawn,
            },
    )
}

/// What holds of the answer of `get_beneficiaries`.
pub open spec fn get_beneficiaries_ensures(
    deps: Deps,
    r: Result<QueryAnswer, ContractError>,
) -> bool {
    match deps.storage@.beneficiaries_list {
        None => r == Err::<QueryAnswer, ContractError>(
            ContractError::StoreError { missing: Record::BeneficiariesList },
        ),
        Some(list) => {
            &&& r matches Ok(QueryAnswer::GetBeneficiaries { beneficiaries })
            &&& beneficiaries@ == reported(list, deps.storage@.ledger)
        },
    }
}

/// The current beneficiaries with their weights and what each was paid.
pub fn get_beneficiaries(deps: &Deps) -> (r: Result<QueryAnswer, ContractError>)
    ensures
        get_beneficiaries_ensures(*deps, r),
{
    let beneficiaries = BeneficiariesList::load(&deps.storage)?;
    let mut result_list: Vec<QueryBeneficiary> = Vec::new();
    let mut i: usize = 0;
    while i < beneficiaries.len()
        invariant
            i <= beneficiaries.len(),
            result_list@ == reported(beneficiaries@.take(i as int), deps.storage@.ledger),
        decreases beneficiaries.len() - i,
    {
        let stored = match StoredBeneficiary::load(&deps.storage, &beneficiaries[i]) {
            Ok(stored) => stored,
            Err(_) => StoredBeneficiary::default(),
        };
        result_list.push(
            QueryBeneficiary {
                address: beneficiaries[i].clone(),
                weight: stored.weight,
                withdrawn: stored.withdrawn,
            },
        );
        assert(result_list@ =~= reported(beneficiaries@.take(i + 1), deps.storage@.ledger));
        i = i + 1;
    }
    assert(beneficiaries@.take(i as int) == beneficiaries@);
    Ok(QueryAnswer::GetBeneficiaries { beneficiaries: result_list })
}

/// What an address can claim now: the configuration and the accumulator must
/// be stored, the oracle must answer, and the address must have a ledger
/// entry.
pub open spec fn current_balance(
    store: StorageView,
    answer: Option<u128>,
    address: Seq<char>,
) -> Result<u128, ContractError> {
    match store.config {
        None => Err(ContractError::StoreError { missing: Record::Config }),
        Some(_) => match store.tax_pool {
            None => Err(ContractError::StoreError { missing: Record::TaxPool }),
            Some(pool) => match updated(pool, answer) {
                Err(e) => Err(e),
                Ok(current) => match lookup(store.ledger, address) {
                    None => Err(ContractError::NotABeneficiary),
                    Some(entry) => claimable(entry, current),
                },
            },
        },
    }
}

/// What holds of the answer of `get_beneficiary_balance`.
pub open spec fn get_beneficiary_balance_ensures(
    deps: Deps,
    address: String,
    r: Result<QueryAnswer, ContractError>,
) -> bool {
    match current_balance(deps.storage@, deps.querier@, address@) {
        Err(e) => r == Err::<QueryAnswer, ContractError>(e),
        Ok(balance) => r == Ok::<QueryAnswer, ContractError>(
            QueryAnswer::GetBeneficiaryBalance { balance },
        ),
    }
}

/// What a beneficiary can claim now.
pub fn get_beneficiary_balance(deps: &Deps, address: String) -> (r: Result<
    QueryAnswer,
    ContractError,
>)
    ensures
        get_beneficiary_balance_ensures(*deps, address, r),
{
    Config::load(&deps.storage)?;
    let tax_pool = TaxPool::load_updated(&deps.storage, &deps.querier)?;
    let beneficiary = match StoredBeneficiary::load(&deps.storage, &address) {
        Ok(beneficiary) => beneficiary,
        Err(_) => {
            return Err(ContractError::NotABeneficiary);
        },
    };
    match beneficiary.get_balance(&tax_pool) {
        Ok(balance) => Ok(QueryAnswer::GetBeneficiaryBalance { balance }),
        Err(e) => Err(e),
    }
}

/// What holds of the answer of `get_admin`.
pub open spec fn get_admin_ensures(deps: Deps, r: Result<QueryAnswer, ContractError>) -> bool {
    match deps.storage@.config {
        None => r == Err::<QueryAnswer, ContractError>(
            ContractError::StoreError { missing: Record::Config },
        ),
        Some(config) => r == Ok::<QueryAnswer, ContractError>(
            QueryAnswer::GetAdmin { address: config.admin },
        ),
    }
}

/// The administrator.
pub fn get_admin(deps: &Deps) -> (r: Result<QueryAnswer, ContractError>)
    ensures
        get_admin_ensures(*deps, r),
{
    let config = Config::load(&deps.storage)?;
    Ok(QueryAnswer::GetAdmin { address: config.admin })
}

/// What holds of the answer of `query`: what holds of the answer to the
/// question that was asked.
pub open spec fn query_ensures(
    deps: Deps,
    msg: QueryMsg,
    r: Result<QueryAnswer, ContractError>,
) -> bool {
    match msg {
        QueryMsg::GetBeneficiaries {  } => get_beneficiaries_ensures(deps, r),
        QueryMsg::GetBeneficiaryBalance { address } => get_beneficiary_balance_ensures(
            deps,
            address,
            r,
        ),
        QueryMsg::GetAdmin {  } => get_admin_ensures(deps, r),
    }
}

/// Answers a question.
pub fn query(deps: &Deps, msg: QueryMsg) -> (r: Result<QueryAnswer, ContractError>)
    ensures
        query_ensures(*deps, msg, r),
{
    match msg {
        QueryMsg::GetBeneficiaries {  } => get_beneficiaries(deps),
        QueryMsg::GetBeneficiaryBalance { address } => get_beneficiary_balance(deps, address),
        QueryMsg::GetAdmin {  } => get_admin(deps),
    }
}

} // verus!
