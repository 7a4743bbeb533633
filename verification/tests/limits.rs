use tax_distributor::contract::{get_beneficiary_balance, init, withdraw};
use tax_distributor::error::{ContractError, Record, WeightsFault};
use tax_distributor::msg::{Deps, Env, InitMsg, LogAttribute, Transfer};
use tax_distributor::querier::Querier;
use tax_distributor::state::{Beneficiary, Config, StoredBeneficiary, TaxPool};
use tax_distributor::store::Storage;
use tax_distributor::util::{send_native_token_msg, withdraw_tax_for_everyone};
use tax_distributor::wide::Wide;

fn env(sender: &str) -> Env {
    Env { contract_address: "pool".to_string(), sender: sender.to_string() }
}

fn config() -> Config {
    Config {
        self_addr: "pool".to_string(),
        admin: "admin".to_string(),
        tax_denom: "uscrt".to_string(),
    }
}

#[test]
fn an_accumulator_without_denominator_is_uninitialized() {
    assert_eq!(TaxPool::default().refresh(100), Err(ContractError::Uninitialized));
    assert_eq!(
        TaxPool::default(),
        TaxPool { total_weight: 0, total_withdrawn: 0, acc_tax_per_share: 0 }
    );
    assert_eq!(TaxPool::default().update(&Querier::new(1)), Err(ContractError::Uninitialized));
    assert_eq!(
        TaxPool::default().update(&Querier::failing()),
        Err(ContractError::OracleError)
    );
}

#[test]
fn amounts_beyond_128_bits_are_refused() {
    let pool = TaxPool { total_weight: 1000, total_withdrawn: 2, acc_tax_per_share: 0 };
    // the income itself does not fit
    assert_eq!(pool.refresh(u128::MAX - 1), Err(ContractError::Overflow));
    // the income fits, the accrual does not
    let one = TaxPool { total_weight: 1, total_withdrawn: 0, acc_tax_per_share: 0 };
    assert_eq!(one.refresh(u128::MAX / 1_000_000_000_000 + 1), Err(ContractError::Overflow));
    assert_eq!(
        one.refresh(u128::MAX / 1_000_000_000_000).unwrap().acc_tax_per_share,
        (u128::MAX / 1_000_000_000_000) * 1_000_000_000_000
    );
    // the largest income that a denominator of 10^4 can carry
    let wide = TaxPool { total_weight: 10_000, total_withdrawn: 0, acc_tax_per_share: 0 };
    assert_eq!(
        wide.refresh(u128::MAX / 100_000_000).unwrap().acc_tax_per_share,
        (u128::MAX / 100_000_000) * 100_000_000
    );
}

#[test]
fn a_payment_that_the_total_cannot_hold_is_refused() {
    let mut deps = Deps { storage: Storage::new(), querier: Querier::new(0) };
    init(
        &mut deps,
        env("admin"),
        InitMsg {
            tax_denom: None,
            beneficiaries: vec![Beneficiary { address: "A".to_string(), weight: 1 }],
            decimal_places_in_weights: 0,
        },
    )
    .unwrap();
    // a ledger that no sequence of withdrawals produces
    TaxPool { total_weight: 1, total_withdrawn: u128::MAX - 10, acc_tax_per_share: 0 }
        .save(&mut deps.storage);
    deps.querier = Querier::new(10);
    assert_eq!(withdraw(&mut deps, env("A"), Some(5)), Err(ContractError::Overflow));
    deps.querier = Querier::new(0);
    assert_eq!(withdraw(&mut deps, env("A"), Some(5)), Err(ContractError::Overflow));
    assert_eq!(
        StoredBeneficiary::load(&deps.storage, &"A".to_string()),
        Ok(StoredBeneficiary { weight: 1, withdrawn: 0 })
    );
}

#[test]
fn every_error_has_its_message() {
    let all = [
        (
            ContractError::InvalidWeights { fault: WeightsFault::TooManyDecimalPlaces },
            "The number of decimal places used in the weights is larger than supported",
        ),
        (
            ContractError::InvalidWeights { fault: WeightsFault::SumNotWhole },
            "The sum of weights must be exactly 100%",
        ),
        (
            ContractError::InvalidWeights { fault: WeightsFault::AddressTwice },
            "Every beneficiary must be named once only",
        ),
        (ContractError::Unauthorized, "The address is not allowed to perform this operation"),
        (ContractError::NotABeneficiary, "cannot load beneficiary"),
        (
            ContractError::InsufficientBalance { available: 1, requested: 2 },
            "insufficient funds to withdraw",
        ),
        (ContractError::Uninitialized, "the tax pool has no beneficiaries yet"),
        (ContractError::OracleError, "cannot query the pool balance"),
        (ContractError::StoreError { missing: Record::TaxPool }, "a stored record is missing"),
        (
            ContractError::LedgerInconsistent,
            "a beneficiary has withdrawn more than its share",
        ),
        (ContractError::Overflow, "an amount does not fit in 128 bits"),
    ];
    for (error, text) in all {
        assert_eq!(error.message(), text);
    }
}

#[test]
fn the_store_keeps_one_entry_per_address() {
    let mut storage = Storage::new();
    let a = "a".to_string();
    let b = "b".to_string();
    assert_eq!(storage.ledger_len(), 0);
    assert_eq!(storage.beneficiary(&a), None);

    StoredBeneficiary { weight: 1, withdrawn: 2 }.save(&mut storage, &a);
    StoredBeneficiary { weight: 3, withdrawn: 4 }.save(&mut storage, &b);
    StoredBeneficiary { weight: 5, withdrawn: 6 }.save(&mut storage, &a);
    assert_eq!(storage.ledger_len(), 2);
    assert_eq!(storage.beneficiary(&a), Some(StoredBeneficiary { weight: 5, withdrawn: 6 }));
    assert_eq!(storage.beneficiary(&b), Some(StoredBeneficiary { weight: 3, withdrawn: 4 }));
    assert_eq!(storage.ledger_entry(0), (a.clone(), StoredBeneficiary { weight: 5, withdrawn: 6 }));
    assert_eq!(storage.ledger_entry(1), (b.clone(), StoredBeneficiary { weight: 3, withdrawn: 4 }));

    let copy = storage.snapshot();
    StoredBeneficiary::delete(&mut storage, &a);
    StoredBeneficiary::delete(&mut storage, &a);
    assert_eq!(storage.ledger_len(), 1);
    assert_eq!(storage.beneficiary(&a), None);
    assert_eq!(storage.ledger_entry(0), (b.clone(), StoredBeneficiary { weight: 3, withdrawn: 4 }));
    assert_eq!(copy.ledger_len(), 2);
    assert_eq!(copy.beneficiary(&a), Some(StoredBeneficiary { weight: 5, withdrawn: 6 }));

    assert_eq!(storage.config(), None);
    config().save(&mut storage);
    assert_eq!(storage.config(), Some(config()));
    assert_eq!(storage.tax_pool(), None);
    assert_eq!(storage.beneficiaries_list(), None);
    storage.set_beneficiaries_list(vec![b.clone(), a.clone()]);
    assert_eq!(storage.beneficiaries_list(), Some(vec![b, a]));
    assert_eq!(storage.snapshot().config(), Some(config()));
}

#[test]
fn a_settlement_is_all_or_nothing() {
    let mut storage = Storage::new();
    let a = "a".to_string();
    let b = "b".to_string();
    let c = "c".to_string();
    StoredBeneficiary { weight: 2, withdrawn: 1 }.save(&mut storage, &a);
    StoredBeneficiary { weight: 3, withdrawn: 31 }.save(&mut storage, &b);
    let pool = TaxPool {
        total_weight: 10,
        total_withdrawn: 32,
        acc_tax_per_share: 10 * 1_000_000_000_000,
    };
    let list = vec![a.clone(), c.clone(), b.clone()];
    assert_eq!(
        withdraw_tax_for_everyone(&mut storage, &config(), &pool, &list),
        Err(ContractError::LedgerInconsistent)
    );
    assert_eq!(storage.ledger_len(), 2);
    assert_eq!(storage.beneficiary(&a), Some(StoredBeneficiary { weight: 2, withdrawn: 1 }));

    StoredBeneficiary { weight: 3, withdrawn: 30 }.save(&mut storage, &b);
    let (messages, log) =
        withdraw_tax_for_everyone(&mut storage, &config(), &pool, &list).unwrap();
    assert_eq!(
        messages,
        vec![
            send_native_token_msg(&a, 19, &config()),
            send_native_token_msg(&c, 0, &config()),
            send_native_token_msg(&b, 0, &config()),
        ]
    );
    assert_eq!(
        messages[0],
        Transfer {
            from_address: "pool".to_string(),
            to_address: "a".to_string(),
            denom: "uscrt".to_string(),
            amount: 19,
        }
    );
    assert_eq!(
        log,
        vec![
            LogAttribute::TaxWithdrawn { address: a.clone() },
            LogAttribute::Amount { amount: 19 },
            LogAttribute::TaxWithdrawn { address: c.clone() },
            LogAttribute::Amount { amount: 0 },
            LogAttribute::TaxWithdrawn { address: b.clone() },
            LogAttribute::Amount { amount: 0 },
        ]
    );
    assert_eq!(storage.ledger_len(), 0);
}

#[test]
fn a_stranger_has_no_balance() {
    let mut deps = Deps { storage: Storage::new(), querier: Querier::new(100) };
    init(
        &mut deps,
        env("admin"),
        InitMsg {
            tax_denom: None,
            beneficiaries: vec![Beneficiary { address: "A".to_string(), weight: 10 }],
            decimal_places_in_weights: 1,
        },
    )
    .unwrap();
    assert_eq!(
        get_beneficiary_balance(&deps, "a".to_string()),
        Err(ContractError::NotABeneficiary)
    );
    assert_eq!(withdraw(&mut deps, env(""), None), Err(ContractError::NotABeneficiary));
    assert_eq!(
        StoredBeneficiary::new(&Beneficiary { address: "x".to_string(), weight: 7 }),
        StoredBeneficiary { weight: 7, withdrawn: 0 }
    );
    assert_eq!(StoredBeneficiary::default(), StoredBeneficiary { weight: 0, withdrawn: 0 });
}

#[test]
fn wide_numbers_tell_whether_they_fit() {
    assert!(Wide { limbs: [u64::MAX, u64::MAX, 0, 0] }.fits_u128());
    assert!(Wide { limbs: [0, 0, 0, 0] }.fits_u128());
    assert!(!Wide { limbs: [0, 0, 1, 0] }.fits_u128());
    assert!(!Wide { limbs: [0, 0, 0, 1] }.fits_u128());
}
