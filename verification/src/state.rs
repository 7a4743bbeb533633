//! The records of the distribution engine and the arithmetic on them.
use vstd::prelude::*;
use vstd::arithmetic::power::{lemma_pow0, lemma_pow_increases, pow};
use crate::error::{ContractError, Record, WeightsFault};
use crate::querier::{check_token_balance, token_balance, Querier};
use crate::store::{lookup, with_entry, without_entry, Ledger, Storage, StorageView};
use crate::wide::{
    wide_as_u128, wide_checked_sub, wide_div, wide_eq, wide_from_u128, wide_limit, wide_mul,
    wide_overflowing_pow,
};

verus! {

/// The factor by which the per-share accrual is scaled: 10^12.
pub const REWARD_SCALE: u128 = 1_000_000_000_000;

/// Who owns the pool and which asset it distributes.
#[derive(Clone, Debug, PartialEq, Eq)]
pub struct Config {
    pub self_addr: String,
    pub admin: String,
    pub tax_denom: String,
}

/// The accumulator: the weight denominator, all that was ever paid out, and
/// the scaled accrual per unit of weight.
#[derive(Clone, Copy, Debug, PartialEq, Eq, Structural)]
pub struct TaxPool {
    pub total_weight: u16,
    pub total_withdrawn: u128,
    pub acc_tax_per_share: u128,
}

/// An address with its weight, as an administrator names it.
#[derive(Clone, Debug, PartialEq, Eq)]
pub struct Beneficiary {
    pub address: String,
    pub weight: u16,
}

/// The ledger entry of one beneficiary: its weight and what it was paid.
#[derive(Clone, Copy, Debug, PartialEq, Eq, Structural)]
pub struct StoredBeneficiary {
    pub weight: u16,
    pub withdrawn: u128,
}

impl Config {
    /// The stored configuration.
    pub fn load(storage: &Storage) -> (r: Result<Config, ContractError>)
        ensures
            r == match storage@.config {
                Some(config) => Ok::<Config, ContractError>(config),
                None => Err(ContractError::StoreError { missing: Record::Config }),
            },
    {
        match storage.config() {
            Some(config) => Ok(config),
            None => Err(ContractError::StoreError { missing: Record::Config }),
        }
    }

    /// Stores the configuration.
    pub fn save(&self, storage: &mut Storage)
        ensures
            final(storage)@ == (StorageView { config: Some(*self), ..old(storage)@ }),
    {
        storage.set_config(
            Config {
                self_addr: self.self_addr.clone(),
                admin: self.admin.clone(),
                tax_denom: self.tax_denom.clone(),
            },
        );
    }

    /// Only the administrator passes.
    pub fn assert_admin(&self, address: &String) -> (r: Result<(), ContractError>)
        ensures
            r == if address@ == self.admin@ {
                Ok::<(), ContractError>(())
            } else {
                Err(ContractError::Unauthorized)
            },
    {
        if *address != self.admin {
            return Err(ContractError::Unauthorized);
        }
        Ok(())
    }
}

/// The scaled accrual per unit of weight for a given lifetime income.
pub open spec fn acc_per_share(income: nat, total_weight: nat) -> nat {
    income * (REWARD_SCALE as nat) / total_weight
}

/// The part of the lifetime income that belongs to a weight.
pub open spec fn lifetime_share(weight: nat, acc: nat) -> nat {
    weight * acc / (REWARD_SCALE as nat)
}

/// What `TaxPool::refresh` returns.
pub open spec fn refreshed(pool: TaxPool, balance: u128) -> Result<TaxPool, ContractError> {
    let income = (balance + pool.total_withdrawn) as nat;
    if pool.total_weight == 0 {
        Err(ContractError::Uninitialized)
    } else if income > u128::MAX || acc_per_share(income, pool.total_weight as nat) > u128::MAX {
        Err(ContractError::Overflow)
    } else {
        Ok(
            TaxPool {
                total_weight: pool.total_weight,
                total_withdrawn: pool.total_withdrawn,
                acc_tax_per_share: acc_per_share(income, pool.total_weight as nat) as u128,
            },
        )
    }
}

/// The accumulator of a new set of beneficiaries: the denominator is
/// `10^decimal_places`, which must fit in 16 bits, and nothing is paid or
/// accrued yet.
pub open spec fn fresh_pool(decimal_places: u8) -> Result<TaxPool, ContractError> {
    if pow(10, decimal_places as nat) > u16::MAX {
        Err(ContractError::InvalidWeights { fault: WeightsFault::TooManyDecimalPlaces })
    } else {
        Ok(
            TaxPool {
                total_weight: pow(10, decimal_places as nat) as u16,
                total_withdrawn: 0,
                acc_tax_per_share: 0,
            },
        )
    }
}

/// What `TaxPool::update` returns for an oracle's answer.
pub open spec fn updated(pool: TaxPool, answer: Option<u128>) -> Result<TaxPool, ContractError> {
    match token_balance(answer) {
        Ok(balance) => refreshed(pool, balance),
        Err(e) => Err(e),
    }
}

/// What `StoredBeneficiary::get_balance` returns.
pub open spec fn claimable(entry: StoredBeneficiary, pool: TaxPool) -> Result<
    u128,
    ContractError,
> {
    let share = lifetime_share(entry.weight as nat, pool.acc_tax_per_share as nat);
    if share < entry.withdrawn {
        Err(ContractError::LedgerInconsistent)
    } else {
        Ok((share - entry.withdrawn) as u128)
    }
}

/// A share never exceeds the accrual it is taken from, so it fits in 128
/// bits.
pub proof fn lemma_share_bounded(weight: u16, acc: u128)
    ensures
        lifetime_share(weight as nat, acc as nat) <= acc,
{
    let w = weight as int;
    let a = acc as int;
    let s = REWARD_SCALE as int;
    assert(w * a <= s * a) by (nonlinear_arith)
        requires
            0 <= w <= s,
            0 <= a,
    ;
    assert((w * a) / s <= a) by (nonlinear_arith)
        requires
            w * a <= s * a,
            s > 0,
            0 <= a,
    ;
}

impl Default for TaxPool {
    fn default() -> (r: TaxPool)
        ensures
            r == (TaxPool { total_weight: 0, total_withdrawn: 0, acc_tax_per_share: 0 }),
    {
        TaxPool { total_weight: 0, total_withdrawn: 0, acc_tax_per_share: 0 }
    }
}

impl TaxPool {
    /// The accumulator brought up to date with the pool's balance. The
    /// denominator and the paid-out total stay as they are.
    pub fn refresh(&self, current_balance: u128) -> (r: Result<TaxPool, ContractError>)
        ensures
            r == refreshed(*self, current_balance),
    {
        if self.total_weight == 0 {
            return Err(ContractError::Uninitialized);
        }
        let income = match current_balance.checked_add(self.total_withdrawn) {
            Some(income) => income,
            None => {
                return Err(ContractError::Overflow);
            },
        };
        let scaled = wide_mul(wide_from_u128(income), wide_from_u128(REWARD_SCALE));
        let acc = wide_div(scaled, wide_from_u128(self.total_weight as u128));
        if !acc.fits_u128() {
            return Err(ContractError::Overflow);
        }
        Ok(
            TaxPool {
                total_weight: self.total_weight,
                total_withdrawn: self.total_withdrawn,
                acc_tax_per_share: wide_as_u128(acc),
            },
        )
    }

    /// The accumulator with which a new set of beneficiaries starts.
    pub fn fresh(decimal_places: u8) -> (r: Result<TaxPool, ContractError>)
        ensures
            r == fresh_pool(decimal_places),
    {
        let mut denominator: u16 = 1;
        let mut i: u8 = 0;
        proof {
            lemma_pow0(10);
        }
        while i < decimal_places
            invariant
                i <= decimal_places,
                denominator == pow(10, i as nat),
            decreases decimal_places - i,
        {
            assert(pow(10, (i + 1) as nat) == 10 * pow(10, i as nat)) by {
                reveal(pow);
            }
            match denominator.checked_mul(10) {
                Some(next) => {
                    denominator = next;
                },
                None => {
                    proof {
                        lemma_pow_increases(10, (i + 1) as nat, decimal_places as nat);
                    }
                    return Err(
                        ContractError::InvalidWeights { fault: WeightsFault::TooManyDecimalPlaces },
                    );
                },
            }
            i = i + 1;
        }
        Ok(TaxPool { total_weight: denominator, total_withdrawn: 0, acc_tax_per_share: 0 })
    }

    /// The stored accumulator.
    pub fn load(storage: &Storage) -> (r: Result<TaxPool, ContractError>)
        ensures
            r == match storage@.tax_pool {
                Some(pool) => Ok::<TaxPool, ContractError>(pool),
                None => Err(ContractError::StoreError { missing: Record::TaxPool }),
            },
    {
        match storage.tax_pool() {
            Some(pool) => Ok(pool),
            None => Err(ContractError::StoreError { missing: Record::TaxPool }),
        }
    }

    /// Stores the accumulator.
    pub fn save(&self, storage: &mut Storage)
        ensures
            final(storage)@ == (StorageView { tax_pool: Some(*self), ..old(storage)@ }),
    {
        storage.set_tax_pool(*self);
    }

    /// The accumulator brought up to date with what the oracle reports.
    pub fn update(&self, querier: &Querier) -> (r: Result<TaxPool, ContractError>)
        ensures
            r == updated(*self, querier@),
    {
        let current_balance = check_token_balance(querier)?;
        self.refresh(current_balance)
    }

    /// The stored accumulator, brought up to date with what the oracle
    /// reports.
    pub fn load_updated(storage: &Storage, querier: &Querier) -> (r: Result<TaxPool, ContractError>)
        ensures
            r == match storage@.tax_pool {
                Some(pool) => updated(pool, querier@),
                None => Err(ContractError::StoreError { missing: Record::TaxPool }),
            },
    {
        let tax_pool = Self::load(storage)?;
        tax_pool.update(querier)
    }

    /// Adds a payment to the paid-out total.
    pub fn record_payout(&mut self, amount: u128) -> (r: Result<(), ContractError>)
        ensures
            old(self).total_withdrawn + amount <= u128::MAX ==> r is Ok && *final(self)
                == (TaxPool {
                total_withdrawn: (old(self).total_withdrawn + amount) as u128,
                ..*old(self)
            }),
            old(self).total_withdrawn + amount > u128::MAX ==> r == Err::<(), ContractError>(
                ContractError::Overflow,
            ) && *final(self) == *old(self),
    {
        match self.total_withdrawn.checked_add(amount) {
            Some(total) => {
                self.total_withdrawn = total;
                Ok(())
            },
            None => Err(ContractError::Overflow),
        }
    }
}

impl Default for StoredBeneficiary {
    fn default() -> (r: StoredBeneficiary)
        ensures
            r == (StoredBeneficiary { weight: 0, withdrawn: 0 }),
    {
        StoredBeneficiary { weight: 0, withdrawn: 0 }
    }
}

impl StoredBeneficiary {
    /// The entry of a newly admitted beneficiary: nothing paid yet.
    pub fn new(beneficiary: &Beneficiary) -> (r: StoredBeneficiary)
        ensures
            r == (StoredBeneficiary { weight: beneficiary.weight, withdrawn: 0 }),
    {
        StoredBeneficiary { weight: beneficiary.weight, withdrawn: 0 }
    }

    /// The ledger entry of an address.
    pub fn load(storage: &Storage, beneficiary: &String) -> (r: Result<
        StoredBeneficiary,
        ContractError,
    >)
        ensures
            r == match lookup(storage@.ledger, beneficiary@) {
                Some(entry) => Ok::<StoredBeneficiary, ContractError>(entry),
                None => Err(ContractError::StoreError { missing: Record::Beneficiary }),
            },
    {
        match storage.beneficiary(beneficiary) {
            Some(entry) => Ok(entry),
            None => Err(ContractError::StoreError { missing: Record::Beneficiary }),
        }
    }

    /// Stores the entry as the ledger entry of an address.
    pub fn save(&self, storage: &mut Storage, beneficiary: &String)
        ensures
            final(storage)@ == (StorageView {
                ledger: with_entry(old(storage)@.ledger, beneficiary@, *self),
                ..old(storage)@
            }),
    {
        storage.set_beneficiary(beneficiary, *self);
    }

    /// Deletes the ledger entry of an address.
    pub fn delete(storage: &mut Storage, beneficiary: &String)
        ensures
            final(storage)@ == (StorageView {
                ledger: without_entry(old(storage)@.ledger, beneficiary@),
                ..old(storage)@
            }),
    {
        storage.remove_beneficiary(beneficiary);
    }

    /// What the beneficiary can claim against an accumulator: its share less
    /// what it was paid. An entry that was paid more than its share is an
    /// error, never a wrapped number.
    pub fn get_balance(&self, tax_pool: &TaxPool) -> (r: Result<u128, ContractError>)
        ensures
            r == claimable(*self, *tax_pool),
    {
        proof {
            lemma_share_bounded(self.weight, tax_pool.acc_tax_per_share);
        }
        let product = wide_mul(
            wide_from_u128(self.weight as u128),
            wide_from_u128(tax_pool.acc_tax_per_share),
        );
        let share = wide_div(product, wide_from_u128(REWARD_SCALE));
        match wide_checked_sub(share, wide_from_u128(self.withdrawn)) {
            Some(cut) => Ok(wide_as_u128(cut)),
            None => Err(ContractError::LedgerInconsistent),
        }
    }
}

/// The sum of the weights of a list of beneficiaries.
pub open spec fn total_weights(beneficiaries: Seq<Beneficiary>) -> nat
    decreases beneficiaries.len(),
{
    if beneficiaries.len() == 0 {
        0
    } else {
        total_weights(beneficiaries.drop_last()) + beneficiaries.last().weight as nat
    }
}

/// A list of beneficiaries names no address twice.
pub open spec fn distinct_addresses(beneficiaries: Seq<Beneficiary>) -> bool {
    forall|i: int, j: int|
        0 <= i < j < beneficiaries.len() ==> (#[trigger] beneficiaries[i]).address@ != (
        #[trigger] beneficiaries[j]).address@
}

/// What `BeneficiariesList::assert_valid_beneficiaries` returns: the power
/// `10^decimal_places` must fit in 256 bits, the weights must add up to it,
/// and no address may be named twice, so that the weights that are stored,
/// one for each address, add up to it too.
pub open spec fn weights_verdict(beneficiaries: Seq<Beneficiary>, decimal_places: u8) -> Result<
    (),
    ContractError,
> {
    if pow(10, decimal_places as nat) >= wide_limit() {
        Err(ContractError::InvalidWeights { fault: WeightsFault::TooManyDecimalPlaces })
    } else if total_weights(beneficiaries) != pow(10, decimal_places as nat) {
        Err(ContractError::InvalidWeights { fault: WeightsFault::SumNotWhole })
    } else if !distinct_addresses(beneficiaries) {
        Err(ContractError::InvalidWeights { fault: WeightsFault::AddressTwice })
    } else {
        Ok(())
    }
}

/// The addresses of a list of beneficiaries, in order.
pub open spec fn addresses_of(beneficiaries: Seq<Beneficiary>) -> Seq<String> {
    beneficiaries.map_values(|b: Beneficiary| b.address)
}

/// The ledger after a list of beneficiaries was admitted: each gets a fresh
/// entry with its weight and nothing paid, in the order of the list, in place
/// of any entry that its address had.
pub open spec fn admitted(ledger: Ledger, beneficiaries: Seq<Beneficiary>) -> Ledger
    decreases beneficiaries.len(),
{
    if beneficiaries.len() == 0 {
        ledger
    } else {
        with_entry(
            admitted(ledger, beneficiaries.drop_last()),
            beneficiaries.last().address@,
            StoredBeneficiary { weight: beneficiaries.last().weight, withdrawn: 0 },
        )
    }
}

/// The set of beneficiaries: the addresses in the order in which they were
/// named.
pub struct BeneficiariesList {}

impl BeneficiariesList {
    /// The stored list of beneficiary addresses.
    pub fn load(storage: &Storage) -> (r: Result<Vec<String>, ContractError>)
        ensures
            match storage@.beneficiaries_list {
                Some(list) => r is Ok && r.unwrap()@ == list,
                None => r == Err::<Vec<String>, ContractError>(
                    ContractError::StoreError { missing: Record::BeneficiariesList },
                ),
            },
    {
        match storage.beneficiaries_list() {
            Some(list) => Ok(list),
            None => Err(ContractError::StoreError { missing: Record::BeneficiariesList }),
        }
    }

    /// Makes a list of beneficiaries the current one: stores their addresses
    /// and gives each a fresh ledger entry. A list that is not valid changes
    /// nothing.
    pub fn save(
        storage: &mut Storage,
        beneficiaries: &Vec<Beneficiary>,
        decimal_places_in_weights: u8,
    ) -> (r: Result<(), ContractError>)
        ensures
            r == weights_verdict(beneficiaries@, decimal_places_in_weights),
            r is Err ==> *final(storage) == *old(storage),
            r is Ok ==> final(storage)@ == (StorageView {
                beneficiaries_list: Some(addresses_of(beneficiaries@)),
                ledger: admitted(old(storage)@.ledger, beneficiaries@),
                ..old(storage)@
            }),
    {
        Self::assert_valid_beneficiaries(beneficiaries, decimal_places_in_weights)?;
        let mut addresses: Vec<String> = Vec::new();
        let mut i: usize = 0;
        while i < beneficiaries.len()
            invariant
                i <= beneficiaries.len(),
                addresses@ == addresses_of(beneficiaries@.take(i as int)),
            decreases beneficiaries.len() - i,
        {
            addresses.push(beneficiaries[i].address.clone());
            assert(beneficiaries@.take(i + 1) == beneficiaries@.take(i as int).push(
                beneficiaries@[i as int],
            ));
            i = i + 1;
        }
        assert(beneficiaries@.take(i as int) == beneficiaries@);
        storage.set_beneficiaries_list(addresses);

        let mut i: usize = 0;
        while i < beneficiaries.len()
            invariant
                i <= beneficiaries.len(),
                storage@ == (StorageView {
                    beneficiaries_list: Some(addresses_of(beneficiaries@)),
                    ledger: admitted(old(storage)@.ledger, beneficiaries@.take(i as int)),
                    ..old(storage)@
                }),
            decreases beneficiaries.len() - i,
        {
            let stored = StoredBeneficiary::new(&beneficiaries[i]);
            stored.save(storage, &beneficiaries[i].address);
            assert(beneficiaries@.take(i + 1).drop_last() == beneficiaries@.take(i as int));
            i = i + 1;
        }
        assert(beneficiaries@.take(i as int) == beneficiaries@);
        Ok(())
    }

    /// Adds up the weights. The sum of any list that fits in memory fits in
    /// 128 bits.
    pub fn sum_weights(beneficiaries: &Vec<Beneficiary>) -> (r: u128)
        ensures
            r == total_weights(beneficiaries@),
    {
        let mut total: u128 = 0;
        let mut i: usize = 0;
        while i < beneficiaries.len()
            invariant
                i <= beneficiaries.len(),
                total == total_weights(beneficiaries@.take(i as int)),
                total <= i * 0xffff,
            decreases beneficiaries.len() - i,
        {
            assert(beneficiaries@.take(i + 1).drop_last() == beneficiaries@.take(i as int));
            total = total + beneficiaries[i].weight as u128;
            i = i + 1;
        }
        assert(beneficiaries@.take(i as int) == beneficiaries@);
        total
    }

    /// Whether a list of beneficiaries names every address once only.
    pub fn names_each_once(beneficiaries: &Vec<Beneficiary>) -> (r: bool)
        ensures
            r == distinct_addresses(beneficiaries@),
    {
        let mut j: usize = 0;
        while j < beneficiaries.len()
            invariant
                j <= beneficiaries.len(),
                forall|a: int, b: int|
                    0 <= a < b < j ==> (#[trigger] beneficiaries@[a]).address@ != (
                    #[trigger] beneficiaries@[b]).address@,
            decreases beneficiaries.len() - j,
        {
            let mut i: usize = 0;
            while i < j
                invariant
                    i <= j < beneficiaries.len(),
                    forall|a: int|
                        0 <= a < i ==> (#[trigger] beneficiaries@[a]).address@
                            != beneficiaries@[j as int].address@,
                decreases j - i,
            {
                if beneficiaries[i].address == beneficiaries[j].address {
                    assert(beneficiaries@[i as int].address@ == beneficiaries@[j as int].address@);
                    return false;
                }
                i = i + 1;
            }
            j = j + 1;
        }
        true
    }

    /// Accepts a list of beneficiaries whose weights are exactly 100% at the
    /// given precision and whose addresses are all different, and no other.
    pub fn assert_valid_beneficiaries(
        beneficiaries: &Vec<Beneficiary>,
        decimal_places_in_weights: u8,
    ) -> (r: Result<(), ContractError>)
        ensures
            r == weights_verdict(beneficiaries@, decimal_places_in_weights),
    {
        let total_weights = Self::sum_weights(beneficiaries);
        let (weight_den, overflow) = wide_overflowing_pow(
            wide_from_u128(10),
            wide_from_u128(decimal_places_in_weights as u128),
        );
        if overflow {
            return Err(ContractError::InvalidWeights { fault: WeightsFault::TooManyDecimalPlaces });
        }
        if !wide_eq(wide_from_u128(total_weights), weight_den) {
            return Err(ContractError::InvalidWeights { fault: WeightsFault::SumNotWhole });
        }
        if !Self::names_each_once(beneficiaries) {
            return Err(ContractError::InvalidWeights { fault: WeightsFault::AddressTwice });
        }
        Ok(())
    }
}

} // verus!
