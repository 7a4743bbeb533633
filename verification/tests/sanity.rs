use tax_distributor::contract::{init, withdraw};
use tax_distributor::error::{ContractError, WeightsFault};
use tax_distributor::msg::{Deps, Env, HandleResponse, InitMsg, LogAttribute};
use tax_distributor::querier::{check_token_balance, Querier};
use tax_distributor::state::{Beneficiary, Config};
use tax_distributor::store::Storage;
use tax_distributor::util::send_native_token_msg;

const MOCK_CONTRACT_ADDR: &str = "cosmos2contract";

fn mock_dependencies() -> Deps {
    Deps { storage: Storage::new(), querier: Querier::new(0) }
}

fn mock_env(sender: &str) -> Env {
    Env { contract_address: MOCK_CONTRACT_ADDR.to_string(), sender: sender.to_string() }
}

fn add_decimals(amount: u128) -> u128 {
    amount * 10_u128.pow(6)
}

fn add_tax(
    amount: u128,
    deps: &mut Deps,
    total_tax_received: &mut u128,
) -> Result<(), ContractError> {
    let contract_balance = check_token_balance(&deps.querier)?;
    deps.querier = Querier::new(contract_balance + amount);

    *total_tax_received += amount;

    Ok(())
}

fn withdraw_helper(
    deps: &mut Deps,
    beneficiary: &str,
    amount: Option<u128>,
) -> Result<HandleResponse, ContractError> {
    withdraw(deps, mock_env(beneficiary), amount)
}

fn withdraw_tester(
    deps: &mut Deps,
    beneficiary: &Beneficiary,
    beneficiary_withdrawn: &mut u128,
    amount: Option<u128>,
    total_tax_received: u128,
    total_withdrawn: &mut u128,
    total_weight: u16,
) -> Result<(), ContractError> {
    let config = Config {
        self_addr: MOCK_CONTRACT_ADDR.to_string(),
        admin: "admin".to_string(),
        tax_denom: "uscrt".to_string(),
    };

    let expected = amount.unwrap_or(
        total_tax_received * beneficiary.weight as u128 / total_weight as u128
            - *beneficiary_withdrawn,
    );
    let result = withdraw_helper(deps, beneficiary.address.as_str(), amount)?;
    assert_eq!(
        result,
        HandleResponse {
            messages: vec![send_native_token_msg(&beneficiary.address, expected, &config)],
            log: vec![
                LogAttribute::TaxWithdrawn { address: beneficiary.address.clone() },
                LogAttribute::Amount { amount: expected },
            ],
        }
    );

    *beneficiary_withdrawn += expected;
    *total_withdrawn += expected;

    let contract_balance = check_token_balance(&deps.querier)?;
    deps.querier = Querier::new(contract_balance - expected);

    Ok(())
}

#[test]
fn test_sanity() {
    let mut deps = mock_dependencies();
    let a = Beneficiary { address: "a".to_string(), weight: 350 };
    let b = Beneficiary { address: "b".to_string(), weight: 650 };
    let total_weight = a.weight + b.weight;

    let init_error = init(
        &mut deps,
        mock_env("admin"),
        InitMsg {
            tax_denom: None,
            beneficiaries: vec![
                Beneficiary { address: "a".to_string(), weight: 350 },
                Beneficiary { address: "b".to_string(), weight: 350 },
            ],
            decimal_places_in_weights: 3,
        },
    )
    .unwrap_err();

    assert_eq!(init_error, ContractError::InvalidWeights { fault: WeightsFault::SumNotWhole });
    assert_eq!(init_error.message(), "The sum of weights must be exactly 100%");

    let init_result = init(
        &mut deps,
        mock_env("admin"),
        InitMsg {
            tax_denom: None,
            beneficiaries: vec![a.clone(), b.clone()],
            decimal_places_in_weights: 3,
        },
    );

    assert!(init_result.is_ok());

    let withdraw_err = withdraw_helper(&mut deps, "a", Some(add_decimals(2000))).unwrap_err();
    assert_eq!(
        withdraw_err,
        ContractError::InsufficientBalance { available: 0, requested: add_decimals(2000) }
    );

    let mut total_tax_received = 0;

    add_tax(add_decimals(1000), &mut deps, &mut total_tax_received).unwrap();
    let withdraw_err = withdraw_helper(&mut deps, "a", Some(add_decimals(2000))).unwrap_err();
    assert_eq!(
        withdraw_err,
        ContractError::InsufficientBalance {
            available: add_decimals(350),
            requested: add_decimals(2000),
        }
    );

    let withdraw_err = withdraw_helper(&mut deps, "c", Some(add_decimals(2000))).unwrap_err();
    assert_eq!(withdraw_err, ContractError::NotABeneficiary);

    let mut withdrawn_a = 0;
    let mut withdrawn_b = 0;
    let mut total_withdrawn = 0;

    withdraw_tester(
        &mut deps,
        &a,
        &mut withdrawn_a,
        Some(add_decimals(150)),
        total_tax_received,
        &mut total_withdrawn,
        total_weight,
    )
    .unwrap();
    withdraw_tester(
        &mut deps,
        &a,
        &mut withdrawn_a,
        None,
        total_tax_received,
        &mut total_withdrawn,
        total_weight,
    )
    .unwrap();

    add_tax(add_decimals(10_000), &mut deps, &mut total_tax_received).unwrap();

    withdraw_tester(
        &mut deps,
        &b,
        &mut withdrawn_b,
        None,
        total_tax_received,
        &mut total_withdrawn,
        total_weight,
    )
    .unwrap();

    add_tax(add_decimals(10_000), &mut deps, &mut total_tax_received).unwrap();
    add_tax(add_decimals(123), &mut deps, &mut total_tax_received).unwrap();

    withdraw_tester(
        &mut deps,
        &b,
        &mut withdrawn_b,
        Some(add_decimals(70)),
        total_tax_received,
        &mut total_withdrawn,
        total_weight,
    )
    .unwrap();

    add_tax(add_decimals(2_000_000), &mut deps, &mut total_tax_received).unwrap();

    withdraw_tester(
        &mut deps,
        &a,
        &mut withdrawn_a,
        Some(add_decimals(130)),
        total_tax_received,
        &mut total_withdrawn,
        total_weight,
    )
    .unwrap();

    withdraw_tester(
        &mut deps,
        &b,
        &mut withdrawn_b,
        None,
        total_tax_received,
        &mut total_withdrawn,
        total_weight,
    )
    .unwrap();

    withdraw_tester(
        &mut deps,
        &a,
        &mut withdrawn_a,
        None,
        total_tax_received,
        &mut total_withdrawn,
        total_weight,
    )
    .unwrap();

    withdraw_tester(
        &mut deps,
        &b,
        &mut withdrawn_b,
        None,
        total_tax_received,
        &mut total_withdrawn,
        total_weight,
    )
    .unwrap();

    assert_eq!(withdrawn_a + withdrawn_b, total_tax_received);
}
