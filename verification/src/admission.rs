//! What holds of the sets of beneficiaries that are admitted: their weights
//! are whole, and their ledger starts with nothing paid.
use vstd::prelude::*;
use vstd::arithmetic::power::{lemma_pow_increases, lemma_pow_positive, pow};
use crate::contract::{admission, init_ensures, set_beneficiaries_ensures};
use crate::error::ContractError;
use crate::laws::{all_listed, each_listed_once, listed};
use crate::msg::{Deps, Env, HandleResponse, InitMsg, InitResponse};
use crate::state::{
    addresses_of, admitted, Beneficiary, Config, distinct_addresses, fresh_pool, REWARD_SCALE,
    StoredBeneficiary, TaxPool, total_weights,
};
use crate::store::{
    distinct_keys, has_key, index_of, Ledger, lemma_with_entry, lookup, StorageView,
};
use crate::wide::wide_limit;
use crate::sums::{ledger_weight, ledger_withdrawn, total, weights_of, withdrawn_of};

verus! {

/// A list is accepted exactly when its weights add up to
/// `10^decimal_places`, that denominator fits the accumulator, and no address
/// is named twice; the accumulator then starts with the sum of the weights as
/// its denominator and nothing paid or accrued.
pub proof fn lemma_accepted_weights_are_whole(beneficiaries: Seq<Beneficiary>, decimal_places: u8)
    ensures
        admission(beneficiaries, decimal_places) is Ok <==> total_weights(beneficiaries) == pow(
            10,
            decimal_places as nat,
        ) && pow(10, decimal_places as nat) <= u16::MAX && distinct_addresses(beneficiaries),
        admission(beneficiaries, decimal_places) is Ok ==> admission(
            beneficiaries,
            decimal_places,
        ).unwrap() == (TaxPool {
            total_weight: total_weights(beneficiaries) as u16,
            total_withdrawn: 0,
            acc_tax_per_share: 0,
        }) && total_weights(beneficiaries) > 0,
        total_weights(beneficiaries) != pow(10, decimal_places as nat) ==> admission(
            beneficiaries,
            decimal_places,
        ) is Err,
        !distinct_addresses(beneficiaries) ==> admission(beneficiaries, decimal_places) is Err,
{
    lemma_pow_positive(10, decimal_places as nat);
    assert(wide_limit() > u16::MAX);
}

/// The sum of a list of zeros is zero.
pub proof fn lemma_total_zero(numbers: Seq<nat>)
    requires
        forall|i: int| 0 <= i < numbers.len() ==> numbers[i] == 0,
    ensures
        total(numbers) == 0,
    decreases numbers.len(),
{
    if numbers.len() > 0 {
        lemma_total_zero(numbers.drop_last());
    }
}

/// The ledger of a list of beneficiaries that were just admitted: one entry
/// for each, in the order of the list, with its weight and nothing paid.
pub open spec fn fresh_ledger(beneficiaries: Seq<Beneficiary>) -> Ledger {
    beneficiaries.map_values(
        |b: Beneficiary| (b.address@, StoredBeneficiary { weight: b.weight, withdrawn: 0 }),
    )
}

/// What admitting a list that names no address twice to an empty ledger
/// gives: one entry for each beneficiary, in order, with nothing paid. So no
/// address has two entries, every entry belongs to a listed address, and the
/// stored weights add up to the weights of the list.
pub proof fn lemma_admitted_to_empty(beneficiaries: Seq<Beneficiary>)
    requires
        distinct_addresses(beneficiaries),
    ensures
        admitted(Seq::empty(), beneficiaries) == fresh_ledger(beneficiaries),
        each_listed_once(addresses_of(beneficiaries)),
        distinct_keys(admitted(Seq::empty(), beneficiaries)),
        all_listed(admitted(Seq::empty(), beneficiaries), addresses_of(beneficiaries)),
        ledger_withdrawn(admitted(Seq::empty(), beneficiaries)) == 0,
        ledger_weight(admitted(Seq::empty(), beneficiaries)) == total_weights(beneficiaries),
    decreases beneficiaries.len(),
{
    let after = admitted(Seq::empty(), beneficiaries);
    if beneficiaries.len() == 0 {
        assert(after =~= fresh_ledger(beneficiaries));
        assert(weights_of(after) =~= Seq::<nat>::empty());
        assert(withdrawn_of(after) =~= Seq::<nat>::empty());
    } else {
        let rest = beneficiaries.drop_last();
        let last = beneficiaries.last();
        let n = beneficiaries.len() - 1;
        let before = admitted(Seq::empty(), rest);
        let entry = StoredBeneficiary { weight: last.weight, withdrawn: 0 };
        assert(distinct_addresses(rest)) by {
            assert forall|i: int, j: int| 0 <= i < j < rest.len() implies (
            #[trigger] rest[i]).address@ != (#[trigger] rest[j]).address@ by {
                assert(rest[i] == beneficiaries[i] && rest[j] == beneficiaries[j]);
            }
        }
        lemma_admitted_to_empty(rest);
        lemma_with_entry(before, last.address@, entry);
        if has_key(before, last.address@) {
            let k = index_of(before, last.address@);
            assert(0 <= k < before.len() && before[k].0 == last.address@);
            assert(beneficiaries[k].address@ == beneficiaries[n].address@);
            assert(false);
        }
        assert(after == before.push((last.address@, entry)));
        assert(after =~= fresh_ledger(beneficiaries));
        assert(weights_of(after).drop_last() =~= weights_of(before));
        let list = addresses_of(beneficiaries);
        assert forall|i: int| 0 <= i < after.len() implies listed(
            list,
            (#[trigger] after[i]).0,
        ) by {
            assert(list[i]@ == after[i].0);
        }
        assert forall|i: int, j: int| 0 <= i < j < list.len() implies (#[trigger] list[i])@ != (
        #[trigger] list[j])@ by {
            assert(beneficiaries[i].address@ != beneficiaries[j].address@);
        }
        assert forall|i: int| 0 <= i < withdrawn_of(after).len() implies withdrawn_of(after)[i]
            == 0 by {
            assert(after[i].1.withdrawn == 0);
        }
        lemma_total_zero(withdrawn_of(after));
    }
}

/// What admitting a list that names no address twice gives on any ledger:
/// every beneficiary of the list has an entry with its weight and nothing
/// paid, every other address has the entry that it had, and no address has
/// two entries.
pub proof fn lemma_admitted_stores_each_weight(ledger: Ledger, beneficiaries: Seq<Beneficiary>)
    requires
        distinct_keys(ledger),
        distinct_addresses(beneficiaries),
    ensures
        distinct_keys(admitted(ledger, beneficiaries)),
        forall|i: int|
            0 <= i < beneficiaries.len() ==> lookup(
                admitted(ledger, beneficiaries),
                (#[trigger] beneficiaries[i]).address@,
            ) == Some(StoredBeneficiary { weight: beneficiaries[i].weight, withdrawn: 0 }),
        forall|key: Seq<char>|
            !listed(addresses_of(beneficiaries), key) ==> lookup(
                admitted(ledger, beneficiaries),
                key,
            ) == lookup(ledger, key),
    decreases beneficiaries.len(),
{
    if beneficiaries.len() > 0 {
        let rest = beneficiaries.drop_last();
        let last = beneficiaries.last();
        let n = beneficiaries.len() - 1;
        let before = admitted(ledger, rest);
        let entry = StoredBeneficiary { weight: last.weight, withdrawn: 0 };
        assert(distinct_addresses(rest)) by {
            assert forall|i: int, j: int| 0 <= i < j < rest.len() implies (
            #[trigger] rest[i]).address@ != (#[trigger] rest[j]).address@ by {
                assert(rest[i] == beneficiaries[i] && rest[j] == beneficiaries[j]);
            }
        }
        lemma_admitted_stores_each_weight(ledger, rest);
        lemma_with_entry(before, last.address@, entry);
        let list = addresses_of(beneficiaries);
        assert forall|i: int| 0 <= i < beneficiaries.len() implies lookup(
            admitted(ledger, beneficiaries),
            (#[trigger] beneficiaries[i]).address@,
        ) == Some(StoredBeneficiary { weight: beneficiaries[i].weight, withdrawn: 0 }) by {
            if i < n {
                assert(rest[i] == beneficiaries[i]);
                assert(beneficiaries[i].address@ != beneficiaries[n].address@);
            }
        }
        assert forall|key: Seq<char>| !listed(list, key) implies lookup(
            admitted(ledger, beneficiaries),
            key,
        ) == lookup(ledger, key) by {
            assert(list[n]@ == last.address@);
            if listed(addresses_of(rest), key) {
                let j = choose|j: int|
                    0 <= j < rest.len() && (#[trigger] addresses_of(rest)[j])@ == key;
                assert(list[j]@ == key);
            }
        }
    }
}

/// The store that `init` leaves behind when it starts from an empty ledger.
pub open spec fn initial_store(
    config: Config,
    pool: TaxPool,
    beneficiaries: Seq<Beneficiary>,
) -> StorageView {
    StorageView {
        config: Some(config),
        tax_pool: Some(pool),
        beneficiaries_list: Some(addresses_of(beneficiaries)),
        ledger: admitted(Seq::empty(), beneficiaries),
    }
}

/// The weight-sum invariant of `init`: a list is accepted only if its weights
/// add up to exactly `10^decimal_places`, which then is the accumulator's
/// denominator, and no address is named twice; on a ledger that was empty the
/// weights that are stored then add up to the denominator too. A list with
/// any other sum, or with an address named twice, is rejected, and a
/// rejection leaves everything as it was.
pub proof fn lemma_init_accepts_whole_weights_only(
    before: Deps,
    env: Env,
    msg: InitMsg,
    after: Deps,
    r: Result<InitResponse, ContractError>,
)
    requires
        init_ensures(before, env, msg, after, r),
    ensures
        r is Ok ==> total_weights(msg.beneficiaries@) == pow(
            10,
            msg.decimal_places_in_weights as nat,
        ) && after.storage@.tax_pool == Some(
            TaxPool {
                total_weight: total_weights(msg.beneficiaries@) as u16,
                total_withdrawn: 0,
                acc_tax_per_share: 0,
            },
        ),
        r is Ok && before.storage@.ledger.len() == 0 ==> ledger_weight(after.storage@.ledger)
            == pow(10, msg.decimal_places_in_weights as nat),
        total_weights(msg.beneficiaries@) != pow(10, msg.decimal_places_in_weights as nat)
            ==> r is Err,
        !distinct_addresses(msg.beneficiaries@) ==> r is Err,
        r is Err ==> after == before,
{
    lemma_accepted_weights_are_whole(msg.beneficiaries@, msg.decimal_places_in_weights);
    if r is Ok && before.storage@.ledger.len() == 0 {
        assert(before.storage@.ledger =~= Seq::empty());
        lemma_admitted_to_empty(msg.beneficiaries@);
    }
}

/// The weight-sum invariant of `set_beneficiaries`: a new list is accepted
/// only if its weights add up to exactly `10^decimal_places`, which then is
/// the accumulator's denominator, and no address is named twice; a list with
/// any other sum, or with an address named twice, is rejected, and a
/// rejection leaves everything as it was.
pub proof fn lemma_set_beneficiaries_accepts_whole_weights_only(
    before: Deps,
    env: Env,
    new_beneficiaries: Vec<Beneficiary>,
    decimal_places: u8,
    after: Deps,
    r: Result<HandleResponse, ContractError>,
)
    requires
        set_beneficiaries_ensures(before, env, new_beneficiaries, decimal_places, after, r),
    ensures
        r is Ok ==> total_weights(new_beneficiaries@) == pow(10, decimal_places as nat)
            && after.storage@.tax_pool == Some(
            TaxPool {
                total_weight: total_weights(new_beneficiaries@) as u16,
                total_withdrawn: 0,
                acc_tax_per_share: 0,
            },
        ),
        total_weights(new_beneficiaries@) != pow(10, decimal_places as nat) ==> r is Err,
        !distinct_addresses(new_beneficiaries@) ==> r is Err,
        r is Err ==> after == before,
{
    lemma_accepted_weights_are_whole(new_beneficiaries@, decimal_places);
}

/// Every denominator with which an accumulator starts divides the scale.
pub proof fn lemma_denominator_divides_scale(decimal_places: u8)
    requires
        fresh_pool(decimal_places) is Ok,
    ensures
        fresh_pool(decimal_places).unwrap().total_weight > 0,
        (REWARD_SCALE as nat) % (fresh_pool(decimal_places).unwrap().total_weight as nat) == 0,
{
    assert(pow(10, 0) == 1 && pow(10, 1) == 10 && pow(10, 2) == 100 && pow(10, 3) == 1000 && pow(
        10,
        4,
    ) == 10000 && pow(10, 5) == 100000) by {
        reveal_with_fuel(pow, 6);
    }
    if decimal_places >= 5 {
        lemma_pow_increases(10, 5, decimal_places as nat);
    } else if decimal_places == 0 {
        assert(REWARD_SCALE % 1 == 0);
    } else if decimal_places == 1 {
        assert(REWARD_SCALE % 10 == 0);
    } else if decimal_places == 2 {
        assert(REWARD_SCALE % 100 == 0);
    } else if decimal_places == 3 {
        assert(REWARD_SCALE % 1000 == 0);
    } else {
        assert(decimal_places == 4);
        assert(REWARD_SCALE % 10000 == 0);
    }
}

} // verus!
