use tax_distributor::contract::{
    change_admin, emergency_withdraw, get_admin, get_beneficiaries, handle, init, query,
    set_beneficiaries, check_admission,
};
use tax_distributor::error::{ContractError, Record, WeightsFault};
use tax_distributor::msg::{
    Deps, Env, HandleMsg, HandleResponse, InitMsg, InitResponse, LogAttribute, QueryAnswer,
    QueryBeneficiary, QueryMsg, Transfer,
};
use tax_distributor::querier::{balance_query, check_token_balance, BalanceQuery, Querier};
use tax_distributor::state::{BeneficiariesList, Beneficiary, Config, StoredBeneficiary, TaxPool};
use tax_distributor::store::Storage;

fn env(sender: &str) -> Env {
    Env { contract_address: "pool".to_string(), sender: sender.to_string() }
}

fn beneficiary(address: &str, weight: u16) -> Beneficiary {
    Beneficiary { address: address.to_string(), weight }
}

fn empty() -> Deps {
    Deps { storage: Storage::new(), querier: Querier::new(0) }
}

fn started() -> Deps {
    let mut deps = empty();
    init(
        &mut deps,
        env("admin"),
        InitMsg {
            tax_denom: Some("utax".to_string()),
            beneficiaries: vec![beneficiary("A", 350), beneficiary("B", 650)],
            decimal_places_in_weights: 3,
        },
    )
    .unwrap();
    deps
}

#[test]
fn init_installs_the_configuration_and_the_ledger() {
    let mut deps = empty();
    let response = init(
        &mut deps,
        env("creator"),
        InitMsg {
            tax_denom: None,
            beneficiaries: vec![beneficiary("A", 35), beneficiary("B", 65)],
            decimal_places_in_weights: 2,
        },
    );
    assert_eq!(response, Ok(InitResponse { messages: vec![], log: vec![] }));
    assert_eq!(
        Config::load(&deps.storage),
        Ok(Config {
            self_addr: "pool".to_string(),
            admin: "creator".to_string(),
            tax_denom: "uscrt".to_string(),
        })
    );
    assert_eq!(
        TaxPool::load(&deps.storage),
        Ok(TaxPool { total_weight: 100, total_withdrawn: 0, acc_tax_per_share: 0 })
    );
    assert_eq!(
        BeneficiariesList::load(&deps.storage),
        Ok(vec!["A".to_string(), "B".to_string()])
    );
    assert_eq!(
        StoredBeneficiary::load(&deps.storage, &"A".to_string()),
        Ok(StoredBeneficiary { weight: 35, withdrawn: 0 })
    );
    assert_eq!(
        StoredBeneficiary::load(&deps.storage, &"B".to_string()),
        Ok(StoredBeneficiary { weight: 65, withdrawn: 0 })
    );
    assert_eq!(get_admin(&deps), Ok(QueryAnswer::GetAdmin { address: "creator".to_string() }));
}

#[test]
fn init_keeps_a_named_denomination() {
    let deps = started();
    assert_eq!(Config::load(&deps.storage).unwrap().tax_denom, "utax");
    assert_eq!(
        balance_query(&Config::load(&deps.storage).unwrap()),
        BalanceQuery { address: "pool".to_string(), denom: "utax".to_string() }
    );
}

#[test]
fn weights_must_be_whole() {
    let list = |weights: &[u16]| -> Vec<Beneficiary> {
        weights.iter().enumerate().map(|(i, w)| beneficiary(&format!("b{}", i), *w)).collect()
    };
    let sum_not_whole = Err(ContractError::InvalidWeights { fault: WeightsFault::SumNotWhole });
    let too_many =
        Err(ContractError::InvalidWeights { fault: WeightsFault::TooManyDecimalPlaces });

    assert_eq!(BeneficiariesList::assert_valid_beneficiaries(&list(&[350, 650]), 3), Ok(()));
    assert_eq!(BeneficiariesList::assert_valid_beneficiaries(&list(&[1]), 0), Ok(()));
    assert_eq!(BeneficiariesList::assert_valid_beneficiaries(&list(&[350, 649]), 3), sum_not_whole);
    assert_eq!(BeneficiariesList::assert_valid_beneficiaries(&list(&[350, 651]), 3), sum_not_whole);
    assert_eq!(BeneficiariesList::assert_valid_beneficiaries(&list(&[350, 650]), 2), sum_not_whole);
    assert_eq!(BeneficiariesList::assert_valid_beneficiaries(&list(&[]), 3), sum_not_whole);
    assert_eq!(BeneficiariesList::assert_valid_beneficiaries(&list(&[10]), 77), sum_not_whole);
    assert_eq!(BeneficiariesList::assert_valid_beneficiaries(&list(&[10]), 78), too_many);
    assert_eq!(BeneficiariesList::assert_valid_beneficiaries(&list(&[10]), 255), too_many);
    assert_eq!(BeneficiariesList::sum_weights(&list(&[65535, 65535, 1])), 131_071);

    // the denominator must fit the accumulator
    assert_eq!(BeneficiariesList::assert_valid_beneficiaries(&list(&[50000, 50000]), 5), Ok(()));
    assert_eq!(
        check_admission(&list(&[50000, 50000]), 5),
        Err(ContractError::InvalidWeights { fault: WeightsFault::TooManyDecimalPlaces })
    );
    assert_eq!(
        check_admission(&list(&[5000, 5000]), 4),
        Ok(TaxPool { total_weight: 10_000, total_withdrawn: 0, acc_tax_per_share: 0 })
    );
    assert_eq!(TaxPool::fresh(0).unwrap().total_weight, 1);
    assert_eq!(TaxPool::fresh(4).unwrap().total_weight, 10_000);
    assert_eq!(
        TaxPool::fresh(5),
        Err(ContractError::InvalidWeights { fault: WeightsFault::TooManyDecimalPlaces })
    );
}

#[test]
fn rejected_init_changes_nothing() {
    let mut deps = started();
    let err = init(
        &mut deps,
        env("intruder"),
        InitMsg {
            tax_denom: None,
            beneficiaries: vec![beneficiary("C", 1)],
            decimal_places_in_weights: 3,
        },
    );
    assert_eq!(err, Err(ContractError::InvalidWeights { fault: WeightsFault::SumNotWhole }));
    assert_eq!(get_admin(&deps), Ok(QueryAnswer::GetAdmin { address: "admin".to_string() }));
    assert_eq!(
        BeneficiariesList::load(&deps.storage),
        Ok(vec!["A".to_string(), "B".to_string()])
    );
    assert_eq!(deps.storage.beneficiary(&"C".to_string()), None);
}

#[test]
fn only_the_admin_changes_the_admin() {
    let mut deps = started();
    assert_eq!(
        change_admin(&mut deps, env("A"), "A".to_string()),
        Err(ContractError::Unauthorized)
    );
    assert_eq!(get_admin(&deps), Ok(QueryAnswer::GetAdmin { address: "admin".to_string() }));

    let response = change_admin(&mut deps, env("admin"), "next".to_string());
    assert_eq!(
        response,
        Ok(HandleResponse {
            messages: vec![],
            log: vec![LogAttribute::ChangedAdmin { address: "next".to_string() }],
        })
    );
    assert_eq!(
        Config::load(&deps.storage),
        Ok(Config {
            self_addr: "pool".to_string(),
            admin: "next".to_string(),
            tax_denom: "utax".to_string(),
        })
    );
    assert_eq!(
        change_admin(&mut deps, env("admin"), "admin".to_string()),
        Err(ContractError::Unauthorized)
    );
    let config = Config::load(&deps.storage).unwrap();
    assert_eq!(config.assert_admin(&"next".to_string()), Ok(()));
    assert_eq!(config.assert_admin(&"nex".to_string()), Err(ContractError::Unauthorized));
}

#[test]
fn only_the_admin_replaces_the_beneficiaries() {
    let mut deps = started();
    deps.querier = Querier::new(500);
    assert_eq!(
        set_beneficiaries(&mut deps, env("B"), vec![beneficiary("B", 10)], 1),
        Err(ContractError::Unauthorized)
    );
    assert_eq!(
        StoredBeneficiary::load(&deps.storage, &"A".to_string()),
        Ok(StoredBeneficiary { weight: 350, withdrawn: 0 })
    );
}

#[test]
fn rejected_replacement_changes_nothing() {
    let mut deps = started();
    deps.querier = Querier::new(500);
    assert_eq!(
        set_beneficiaries(&mut deps, env("admin"), vec![beneficiary("C", 9)], 1),
        Err(ContractError::InvalidWeights { fault: WeightsFault::SumNotWhole })
    );
    assert_eq!(
        set_beneficiaries(&mut deps, env("admin"), vec![beneficiary("C", 10)], 78),
        Err(ContractError::InvalidWeights { fault: WeightsFault::TooManyDecimalPlaces })
    );
    assert_eq!(
        BeneficiariesList::load(&deps.storage),
        Ok(vec!["A".to_string(), "B".to_string()])
    );
    assert_eq!(
        StoredBeneficiary::load(&deps.storage, &"A".to_string()),
        Ok(StoredBeneficiary { weight: 350, withdrawn: 0 })
    );
    assert_eq!(
        TaxPool::load(&deps.storage),
        Ok(TaxPool { total_weight: 1000, total_withdrawn: 0, acc_tax_per_share: 0 })
    );
}

#[test]
fn emergency_withdraw_sweeps_the_balance() {
    let mut deps = started();
    deps.querier = Querier::new(4321);
    assert_eq!(emergency_withdraw(&mut deps, env("A")), Err(ContractError::Unauthorized));
    assert_eq!(
        emergency_withdraw(&mut deps, env("admin")),
        Ok(HandleResponse {
            messages: vec![Transfer {
                from_address: "pool".to_string(),
                to_address: "admin".to_string(),
                denom: "utax".to_string(),
                amount: 4321,
            }],
            log: vec![
                LogAttribute::EmergencyWithdraw { address: "admin".to_string() },
                LogAttribute::Amount { amount: 4321 },
            ],
        })
    );
    // the ledger is not touched
    assert_eq!(
        TaxPool::load(&deps.storage),
        Ok(TaxPool { total_weight: 1000, total_withdrawn: 0, acc_tax_per_share: 0 })
    );

    deps.querier = Querier::new(0);
    assert_eq!(
        emergency_withdraw(&mut deps, env("admin")),
        Ok(HandleResponse {
            messages: vec![],
            log: vec![
                LogAttribute::EmergencyWithdraw { address: "admin".to_string() },
                LogAttribute::Amount { amount: 0 },
            ],
        })
    );
}

#[test]
fn handle_carries_out_the_named_command() {
    let mut deps = started();
    deps.querier = Querier::new(1000);
    let response =
        handle(&mut deps, env("A"), HandleMsg::Withdraw { amount: Some(50) }).unwrap();
    assert_eq!(response.messages[0].amount, 50);
    assert_eq!(response.messages[0].to_address, "A");
    deps.querier = Querier::new(950);

    let response = handle(
        &mut deps,
        env("admin"),
        HandleMsg::ChangeAdmin { new_admin: "next".to_string() },
    )
    .unwrap();
    assert_eq!(response.log, vec![LogAttribute::ChangedAdmin { address: "next".to_string() }]);

    let response = handle(
        &mut deps,
        env("next"),
        HandleMsg::SetBeneficiaries {
            beneficiaries: vec![beneficiary("C", 1)],
            decimal_places_in_weights: 0,
        },
    )
    .unwrap();
    assert_eq!(response.messages.len(), 2);
    assert_eq!(response.messages[0].amount, 300);
    assert_eq!(response.messages[1].amount, 650);
    assert_eq!(BeneficiariesList::load(&deps.storage), Ok(vec!["C".to_string()]));
    deps.querier = Querier::new(0);

    deps.querier = Querier::new(12);
    let response = handle(&mut deps, env("next"), HandleMsg::EmergencyWithdraw {}).unwrap();
    assert_eq!(response.messages[0].amount, 12);
    assert_eq!(response.messages[0].to_address, "next");
}

#[test]
fn a_sweep_leaves_claims_that_the_pool_cannot_cover() {
    let mut deps = started();
    deps.querier = Querier::new(1000);
    handle(&mut deps, env("B"), HandleMsg::Withdraw { amount: None }).unwrap();
    deps.querier = Querier::new(350);
    handle(&mut deps, env("admin"), HandleMsg::EmergencyWithdraw {}).unwrap();
    deps.querier = Querier::new(0);
    // B was paid 650 of an income that now counts as 650
    assert_eq!(
        query(&deps, QueryMsg::GetBeneficiaryBalance { address: "B".to_string() }),
        Err(ContractError::LedgerInconsistent)
    );
    assert_eq!(
        handle(&mut deps, env("B"), HandleMsg::Withdraw { amount: None }),
        Err(ContractError::LedgerInconsistent)
    );
    // A is told of a claim although the pool is empty
    assert_eq!(
        query(&deps, QueryMsg::GetBeneficiaryBalance { address: "A".to_string() }),
        Ok(QueryAnswer::GetBeneficiaryBalance { balance: 227 })
    );
    assert_eq!(
        handle(
            &mut deps,
            env("admin"),
            HandleMsg::SetBeneficiaries {
                beneficiaries: vec![beneficiary("C", 1)],
                decimal_places_in_weights: 0,
            },
        ),
        Err(ContractError::LedgerInconsistent)
    );
    // the settlement is refused before the new list is looked at
    assert_eq!(
        handle(
            &mut deps,
            env("admin"),
            HandleMsg::SetBeneficiaries {
                beneficiaries: vec![beneficiary("C", 2)],
                decimal_places_in_weights: 0,
            },
        ),
        Err(ContractError::LedgerInconsistent)
    );
    assert_eq!(
        BeneficiariesList::load(&deps.storage),
        Ok(vec!["A".to_string(), "B".to_string()])
    );
}

#[test]
fn only_some_commands_read_the_balance() {
    assert!(HandleMsg::Withdraw { amount: None }.reads_balance());
    assert!(HandleMsg::EmergencyWithdraw {}.reads_balance());
    assert!(HandleMsg::SetBeneficiaries { beneficiaries: vec![], decimal_places_in_weights: 0 }
        .reads_balance());
    assert!(!HandleMsg::ChangeAdmin { new_admin: "x".to_string() }.reads_balance());
    assert!(QueryMsg::GetBeneficiaryBalance { address: "x".to_string() }.reads_balance());
    assert!(!QueryMsg::GetBeneficiaries {}.reads_balance());
    assert!(!QueryMsg::GetAdmin {}.reads_balance());

    // with an oracle that fails, what reads no balance goes through
    let mut deps = started();
    deps.querier = Querier::failing();
    assert!(handle(
        &mut deps,
        env("admin"),
        HandleMsg::ChangeAdmin { new_admin: "next".to_string() }
    )
    .is_ok());
    assert_eq!(
        query(&deps, QueryMsg::GetAdmin {}),
        Ok(QueryAnswer::GetAdmin { address: "next".to_string() })
    );
    assert!(query(&deps, QueryMsg::GetBeneficiaries {}).is_ok());
}

#[test]
fn query_answers_the_question_asked() {
    let mut deps = started();
    deps.querier = Querier::new(2000);
    assert_eq!(
        query(&deps, QueryMsg::GetAdmin {}),
        Ok(QueryAnswer::GetAdmin { address: "admin".to_string() })
    );
    assert_eq!(
        query(&deps, QueryMsg::GetBeneficiaryBalance { address: "B".to_string() }),
        Ok(QueryAnswer::GetBeneficiaryBalance { balance: 1300 })
    );
    assert_eq!(
        query(&deps, QueryMsg::GetBeneficiaryBalance { address: "Z".to_string() }),
        Err(ContractError::NotABeneficiary)
    );
    handle(&mut deps, env("B"), HandleMsg::Withdraw { amount: Some(300) }).unwrap();
    assert_eq!(
        query(&deps, QueryMsg::GetBeneficiaries {}),
        Ok(QueryAnswer::GetBeneficiaries {
            beneficiaries: vec![
                QueryBeneficiary { address: "A".to_string(), weight: 350, withdrawn: 0 },
                QueryBeneficiary { address: "B".to_string(), weight: 650, withdrawn: 300 },
            ]
        })
    );
    assert_eq!(query(&deps, QueryMsg::GetBeneficiaries {}), get_beneficiaries(&deps));
}

#[test]
fn the_oracle_answers_or_fails() {
    assert_eq!(check_token_balance(&Querier::new(17)), Ok(17));
    assert_eq!(check_token_balance(&Querier::failing()), Err(ContractError::OracleError));
    let mut deps = started();
    deps.querier = Querier::failing();
    assert_eq!(
        handle(&mut deps, env("A"), HandleMsg::Withdraw { amount: None }),
        Err(ContractError::OracleError)
    );
    assert_eq!(emergency_withdraw(&mut deps, env("admin")), Err(ContractError::OracleError));
    assert_eq!(
        set_beneficiaries(&mut deps, env("admin"), vec![beneficiary("C", 1)], 0),
        Err(ContractError::OracleError)
    );
    assert_eq!(
        query(&deps, QueryMsg::GetBeneficiaryBalance { address: "A".to_string() }),
        Err(ContractError::OracleError)
    );
    assert_eq!(
        TaxPool::load_updated(&deps.storage, &deps.querier),
        Err(ContractError::OracleError)
    );
}

#[test]
fn an_empty_store_has_no_records() {
    let mut deps = empty();
    let missing = |record: Record| ContractError::StoreError { missing: record };
    assert_eq!(get_admin(&deps), Err(missing(Record::Config)));
    assert_eq!(get_beneficiaries(&deps), Err(missing(Record::BeneficiariesList)));
    assert_eq!(Config::load(&deps.storage), Err(missing(Record::Config)));
    assert_eq!(TaxPool::load(&deps.storage), Err(missing(Record::TaxPool)));
    assert_eq!(
        TaxPool::load_updated(&deps.storage, &deps.querier),
        Err(missing(Record::TaxPool))
    );
    assert_eq!(BeneficiariesList::load(&deps.storage), Err(missing(Record::BeneficiariesList)));
    assert_eq!(
        StoredBeneficiary::load(&deps.storage, &"A".to_string()),
        Err(missing(Record::Beneficiary))
    );
    assert_eq!(
        change_admin(&mut deps, env("admin"), "x".to_string()),
        Err(missing(Record::Config))
    );
    assert_eq!(emergency_withdraw(&mut deps, env("admin")), Err(missing(Record::Config)));
    assert_eq!(
        set_beneficiaries(&mut deps, env("admin"), vec![beneficiary("C", 1)], 0),
        Err(missing(Record::Config))
    );
    assert_eq!(
        query(&deps, QueryMsg::GetBeneficiaryBalance { address: "A".to_string() }),
        Err(missing(Record::Config))
    );
}
