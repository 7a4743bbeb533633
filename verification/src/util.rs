//! Transfers, and the settlement of every beneficiary at once.
use vstd::prelude::*;
use crate::error::ContractError;
use crate::msg::{LogAttribute, Transfer};
use crate::state::{claimable, Config, StoredBeneficiary, TaxPool};
use crate::store::{lookup, without_entry, Ledger, Storage, StorageView};

verus! {

/// The instruction that sends an amount of the pool's asset from the pool to
/// an address.
pub fn send_native_token_msg(to: &String, amount: u128, config: &Config) -> (r: Transfer)
    ensures
        r == (Transfer {
            from_address: config.self_addr,
            to_address: *to,
            denom: config.tax_denom,
            amount,
        }),
{
    Transfer {
        from_address: config.self_addr.clone(),
        to_address: to.clone(),
        denom: config.tax_denom.clone(),
        amount,
    }
}

/// The entry under which an address is settled: its ledger entry, or an
/// empty one when it has none.
pub open spec fn entry_or_empty(ledger: Ledger, address: Seq<char>) -> StoredBeneficiary {
    match lookup(ledger, address) {
        Some(entry) => entry,
        None => StoredBeneficiary { weight: 0, withdrawn: 0 },
    }
}

/// The outcome of a settlement: what each listed address is paid, in the
/// order of the list, and the ledger that is left.
pub struct Settlement {
    pub payments: Seq<u128>,
    pub ledger: Ledger,
}

/// Settles the listed addresses one after the other against an accumulator:
/// each is paid all that it can claim and loses its ledger entry. An address
/// that is listed again, or has no entry, is paid nothing.
pub open spec fn settled(ledger: Ledger, list: Seq<String>, pool: TaxPool) -> Result<
    Settlement,
    ContractError,
>
    decreases list.len(),
{
    if list.len() == 0 {
        Ok(Settlement { payments: Seq::empty(), ledger })
    } else {
        match settled(ledger, list.drop_last(), pool) {
            Err(e) => Err(e),
            Ok(before) => match claimable(entry_or_empty(before.ledger, list.last()@), pool) {
                Err(e) => Err(e),
                Ok(balance) => Ok(
                    Settlement {
                        payments: before.payments.push(balance),
                        ledger: without_entry(before.ledger, list.last()@),
                    },
                ),
            },
        }
    }
}

/// The transfers of a settlement: one to each listed address, in order.
pub open spec fn settlement_messages(config: Config, list: Seq<String>, payments: Seq<u128>) -> Seq<
    Transfer,
> {
    Seq::new(
        list.len(),
        |i: int|
            Transfer {
                from_address: config.self_addr,
                to_address: list[i],
                denom: config.tax_denom,
                amount: payments[i],
            },
    )
}

/// The event attributes of a settlement: for each listed address, in order,
/// the address and then the amount.
pub open spec fn settlement_log(list: Seq<String>, payments: Seq<u128>) -> Seq<LogAttribute> {
    Seq::new(
        2 * list.len(),
        |k: int|
            if k % 2 == 0 {
                LogAttribute::TaxWithdrawn { address: list[k / 2] }
            } else {
                LogAttribute::Amount { amount: payments[k / 2] }
            },
    )
}

/// Pays every listed beneficiary all that it can claim against the
/// accumulator and deletes its ledger entry. Either all are settled or the
/// store stays as it was.
pub fn withdraw_tax_for_everyone(
    storage: &mut Storage,
    config: &Config,
    tax_pool: &TaxPool,
    beneficiaries: &Vec<String>,
) -> (r: Result<(Vec<Transfer>, Vec<LogAttribute>), ContractError>)
    ensures
        match settled(old(storage)@.ledger, beneficiaries@, *tax_pool) {
            Ok(outcome) => {
                &&& r is Ok
                &&& r.unwrap().0@ == settlement_messages(*config, beneficiaries@, outcome.payments)
                &&& r.unwrap().1@ == settlement_log(beneficiaries@, outcome.payments)
                &&& final(storage)@ == (StorageView { ledger: outcome.ledger, ..old(storage)@ })
            },
            Err(e) => {
                &&& r == Err::<(Vec<Transfer>, Vec<LogAttribute>), ContractError>(e)
                &&& *final(storage) == *old(storage)
            },
        },
{
    let mut messages: Vec<Transfer> = Vec::new();
    let mut log: Vec<LogAttribute> = Vec::new();
    let mut work = storage.snapshot();
    let ghost mut payments: Seq<u128> = Seq::empty();

    let mut i: usize = 0;
    while i < beneficiaries.len()
        invariant
            i <= beneficiaries.len(),
            settled(old(storage)@.ledger, beneficiaries@.take(i as int), *tax_pool) == Ok::<
                Settlement,
                ContractError,
            >(Settlement { payments, ledger: work@.ledger }),
            work@ == (StorageView { ledger: work@.ledger, ..old(storage)@ }),
            payments.len() == i,
            messages@ == settlement_messages(*config, beneficiaries@.take(i as int), payments),
            log@ == settlement_log(beneficiaries@.take(i as int), payments),
            *storage == *old(storage),
        decreases beneficiaries.len() - i,
    {
        let b_addr = &beneficiaries[i];
        let b = match StoredBeneficiary::load(&work, b_addr) {
            Ok(entry) => entry,
            Err(_) => StoredBeneficiary::default(),
        };
        assert(beneficiaries@.take(i + 1).drop_last() == beneficiaries@.take(i as int));
        assert(beneficiaries@.take(i + 1).last() == beneficiaries@[i as int]);
        let balance = match b.get_balance(tax_pool) {
            Ok(balance) => balance,
            Err(e) => {
                proof {
                    lemma_settled_fails(
                        old(storage)@.ledger,
                        beneficiaries@,
                        *tax_pool,
                        i as int + 1,
                    );
                }
                return Err(e);
            },
        };
        messages.push(send_native_token_msg(b_addr, balance, config));
        log.push(LogAttribute::TaxWithdrawn { address: b_addr.clone() });
        log.push(LogAttribute::Amount { amount: balance });
        StoredBeneficiary::delete(&mut work, b_addr);
        proof {
            payments = payments.push(balance);
            assert(messages@ =~= settlement_messages(
                *config,
                beneficiaries@.take(i + 1),
                payments,
            ));
            assert(log@ =~= settlement_log(beneficiaries@.take(i + 1), payments));
        }
        i = i + 1;
    }
    assert(beneficiaries@.take(i as int) == beneficiaries@);
    *storage = work;
    Ok((messages, log))
}

/// A settlement that fails on the first addresses of a list fails in the same
/// way on the whole list.
pub proof fn lemma_settled_fails(ledger: Ledger, list: Seq<String>, pool: TaxPool, n: int)
    requires
        0 <= n <= list.len(),
        settled(ledger, list.take(n), pool) is Err,
    ensures
        settled(ledger, list, pool) == settled(ledger, list.take(n), pool),
    decreases list.len() - n,
{
    if n < list.len() {
        assert(list.take(n + 1).drop_last() == list.take(n));
        lemma_settled_fails(ledger, list, pool, n + 1);
    } else {
        assert(list.take(n) == list);
    }
}

} // verus!
