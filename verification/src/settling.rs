//! What holds of a settlement: every listed beneficiary is paid all that it
//! is owed, once, and a replacement leaves nothing of the old set behind.
use vstd::prelude::*;
use vstd::arithmetic::power::{lemma_pow_positive, pow};
use crate::admission::{
    fresh_ledger, lemma_accepted_weights_are_whole, lemma_admitted_to_empty,
    lemma_denominator_divides_scale,
};
use crate::contract::{admission, after_replacement, current_balance, replacement};
use crate::error::ContractError;
use crate::laws::{
    accounts_in_order, all_listed, claims_of, each_listed_once, in_order, income,
    lemma_claims_covered,
    lemma_owed_is_claimable, listed, outstanding, owed, owed_to, Step, step, World,
};
use crate::state::{
    acc_per_share, addresses_of, Beneficiary, claimable, fresh_pool, lemma_share_bounded,
    lifetime_share, refreshed, StoredBeneficiary, TaxPool, updated,
};
use crate::store::{
    distinct_keys, has_key, index_of, Ledger, lemma_index_of, lemma_without_entry, lookup,
    StorageView, without_entry,
};
use crate::sums::{lemma_share_is_proportion, lemma_total_remove, total};
use crate::util::{entry_or_empty, settled};

verus! {

/// The sum of a list of payments.
pub open spec fn paid_out(payments: Seq<u128>) -> nat {
    total(payments.map_values(|p: u128| p as nat))
}

/// Whether a place in a list is the first at which its address is named.
pub open spec fn first_listing(list: Seq<String>, j: int) -> bool {
    forall|i: int| 0 <= i < j ==> (#[trigger] list[i])@ != list[j]@
}

/// An address is in a list when it is the last one or in the list before the
/// last one.
pub proof fn lemma_listed_last(list: Seq<String>, address: Seq<char>)
    requires
        list.len() > 0,
    ensures
        listed(list, address) <==> (address == list.last()@ || listed(
            list.drop_last(),
            address,
        )),
{
    let prefix = list.drop_last();
    if listed(prefix, address) {
        let j = choose|j: int| 0 <= j < prefix.len() && (#[trigger] prefix[j])@ == address;
        assert(list[j]@ == address);
    }
    if listed(list, address) && address != list.last()@ {
        let j = choose|j: int| 0 <= j < list.len() && (#[trigger] list[j])@ == address;
        assert(prefix[j]@ == address);
    }
    if address == list.last()@ {
        assert(list[list.len() - 1]@ == address);
    }
}

/// A place is the first listing of its address in a list exactly when it is
/// in the list without its last address.
pub proof fn lemma_first_listing_prefix(list: Seq<String>, j: int)
    requires
        0 <= j < list.len() - 1,
    ensures
        first_listing(list, j) == first_listing(list.drop_last(), j),
{
    let prefix = list.drop_last();
    assert(prefix[j] == list[j]);
    if first_listing(list, j) {
        assert forall|i: int| 0 <= i < j implies (#[trigger] prefix[i])@ != prefix[j]@ by {
            assert(prefix[i] == list[i]);
        }
    } else {
        let i = choose|i: int| 0 <= i < j && (#[trigger] list[i])@ == list[j]@;
        assert(prefix[i] == list[i]);
    }
}

/// The last place of a list is a first listing exactly when the address is
/// not in the list before it.
pub proof fn lemma_first_listing_last(list: Seq<String>)
    requires
        list.len() > 0,
    ensures
        first_listing(list, list.len() - 1) == !listed(list.drop_last(), list.last()@),
{
    let prefix = list.drop_last();
    let n = list.len() - 1;
    if listed(prefix, list.last()@) {
        let i = choose|i: int| 0 <= i < prefix.len() && (#[trigger] prefix[i])@ == list.last()@;
        assert(list[i]@ == list[n]@);
    } else {
        assert forall|i: int| 0 <= i < n implies (#[trigger] list[i])@ != list[n]@ by {
            assert(prefix[i] == list[i]);
        }
    }
}

/// What a settlement leaves of the ledger: no address has two entries, no
/// listed address has an entry, and the entries of all other addresses are
/// as they were.
pub proof fn lemma_settlement_clears_the_listed(ledger: Ledger, list: Seq<String>, pool: TaxPool)
    requires
        distinct_keys(ledger),
        settled(ledger, list, pool) is Ok,
    ensures
        distinct_keys(settled(ledger, list, pool).unwrap().ledger),
        settled(ledger, list, pool).unwrap().payments.len() == list.len(),
        forall|key: Seq<char>|
            lookup(settled(ledger, list, pool).unwrap().ledger, key) == if listed(list, key) {
                None
            } else {
                lookup(ledger, key)
            },
    decreases list.len(),
{
    let outcome = settled(ledger, list, pool).unwrap();
    if list.len() == 0 {
        assert forall|key: Seq<char>| !listed(list, key) by {}
    } else {
        let prefix = list.drop_last();
        let last = list.last()@;
        let before = settled(ledger, prefix, pool).unwrap();
        lemma_settlement_clears_the_listed(ledger, prefix, pool);
        lemma_without_entry(before.ledger, last);
        assert(outcome.ledger == without_entry(before.ledger, last));
        assert forall|key: Seq<char>| lookup(outcome.ledger, key) == if listed(list, key) {
            None
        } else {
            lookup(ledger, key)
        } by {
            lemma_listed_last(list, key);
            if key == last {
                assert(lookup(outcome.ledger, key) is None);
            } else {
                assert(lookup(outcome.ledger, key) == lookup(before.ledger, key));
                assert(lookup(before.ledger, key) == if listed(prefix, key) {
                    None
                } else {
                    lookup(ledger, key)
                });
            }
        }
    }
}

/// Settlement completeness: a settlement pays every listed address, at the
/// first place where it is named, all that its entry could claim, and
/// nothing at a later place; afterwards no listed address has a ledger
/// entry, and the entries of all other addresses are as they were.
pub proof fn lemma_settlement_complete(ledger: Ledger, list: Seq<String>, pool: TaxPool)
    requires
        distinct_keys(ledger),
        settled(ledger, list, pool) is Ok,
    ensures
        ({
            let outcome = settled(ledger, list, pool).unwrap();
            &&& distinct_keys(outcome.ledger)
            &&& outcome.payments.len() == list.len()
            &&& forall|key: Seq<char>|
                listed(list, key) ==> lookup(outcome.ledger, key) is None
            &&& forall|key: Seq<char>|
                !listed(list, key) ==> lookup(outcome.ledger, key) == lookup(ledger, key)
            &&& forall|j: int|
                0 <= j < list.len() ==> claimable(
                    entry_or_empty(ledger, (#[trigger] list[j])@),
                    pool,
                ) is Ok
            &&& forall|j: int|
                0 <= j < list.len() ==> #[trigger] outcome.payments[j] == if first_listing(
                    list,
                    j,
                ) {
                    claimable(entry_or_empty(ledger, list[j]@), pool).unwrap()
                } else {
                    0
                }
        }),
    decreases list.len(),
{
    let outcome = settled(ledger, list, pool).unwrap();
    lemma_settlement_clears_the_listed(ledger, list, pool);
    if list.len() > 0 {
        let prefix = list.drop_last();
        let last = list.last()@;
        let n = list.len() - 1;
        let before = settled(ledger, prefix, pool).unwrap();
        lemma_settlement_complete(ledger, prefix, pool);
        lemma_settlement_clears_the_listed(ledger, prefix, pool);
        lemma_first_listing_last(list);
        lemma_nothing_for_nothing(pool);
        assert(list[n]@ == last);
        // what is paid at the last place
        assert(outcome.payments[n] == claimable(
            entry_or_empty(before.ledger, last),
            pool,
        ).unwrap());
        assert(entry_or_empty(before.ledger, last) == if listed(prefix, last) {
            StoredBeneficiary { weight: 0, withdrawn: 0 }
        } else {
            entry_or_empty(ledger, last)
        });
        if listed(prefix, last) {
            let i = choose|i: int| 0 <= i < prefix.len() && (#[trigger] prefix[i])@ == last;
            assert(prefix[i] == list[i]);
            assert(claimable(entry_or_empty(ledger, list[i]@), pool) is Ok);
        }
        assert forall|j: int| 0 <= j < list.len() implies claimable(
            entry_or_empty(ledger, (#[trigger] list[j])@),
            pool,
        ) is Ok by {
            if j < n {
                assert(prefix[j] == list[j]);
            }
        }
        assert forall|j: int| 0 <= j < list.len() implies #[trigger] outcome.payments[j]
            == if first_listing(list, j) {
            claimable(entry_or_empty(ledger, list[j]@), pool).unwrap()
        } else {
            0
        } by {
            if j < n {
                assert(prefix[j] == list[j]);
                assert(outcome.payments[j] == before.payments[j]);
                lemma_first_listing_prefix(list, j);
            }
        }
    }
}

/// In a settlement of a list that names no address twice, every listed
/// address is paid all that its entry could claim.
pub proof fn lemma_settlement_pays_each_its_claim(
    ledger: Ledger,
    list: Seq<String>,
    pool: TaxPool,
    j: int,
)
    requires
        distinct_keys(ledger),
        each_listed_once(list),
        settled(ledger, list, pool) is Ok,
        0 <= j < list.len(),
    ensures
        claimable(entry_or_empty(ledger, list[j]@), pool) == Ok::<u128, ContractError>(
            settled(ledger, list, pool).unwrap().payments[j],
        ),
{
    lemma_settlement_complete(ledger, list, pool);
    assert(first_listing(list, j));
    assert(claimable(entry_or_empty(ledger, list[j]@), pool) is Ok);
}

/// An entry without weight and without payments can claim nothing.
pub proof fn lemma_nothing_for_nothing(pool: TaxPool)
    ensures
        claimable(StoredBeneficiary { weight: 0, withdrawn: 0 }, pool) == Ok::<u128, ContractError>(
            0,
        ),
{
    assert(0 * (pool.acc_tax_per_share as nat) == 0);
}

/// A settlement of a ledger whose entries all belong to listed addresses
/// leaves no entry.
pub proof fn lemma_settlement_empties_the_ledger(ledger: Ledger, list: Seq<String>, pool: TaxPool)
    requires
        distinct_keys(ledger),
        all_listed(ledger, list),
        settled(ledger, list, pool) is Ok,
    ensures
        settled(ledger, list, pool).unwrap().ledger == Seq::<
            (Seq<char>, StoredBeneficiary),
        >::empty(),
{
    let outcome = settled(ledger, list, pool).unwrap();
    lemma_settlement_clears_the_listed(ledger, list, pool);
    if outcome.ledger.len() > 0 {
        let key = outcome.ledger[0].0;
        lemma_index_of(outcome.ledger, 0);
        if !listed(list, key) {
            assert(has_key(ledger, key));
            let i = index_of(ledger, key);
            assert(0 <= i < ledger.len() && ledger[i].0 == key);
            assert(listed(list, ledger[i].0));
        }
        assert(false);
    }
    assert(outcome.ledger =~= Seq::empty());
}

/// A settlement of a ledger in which no entry was paid more than its share
/// never fails.
pub proof fn lemma_settlement_is_granted(ledger: Ledger, list: Seq<String>, pool: TaxPool)
    requires
        distinct_keys(ledger),
        forall|i: int| 0 <= i < ledger.len() ==> claimable((#[trigger] ledger[i]).1, pool) is Ok,
    ensures
        settled(ledger, list, pool) is Ok,
    decreases list.len(),
{
    if list.len() > 0 {
        let prefix = list.drop_last();
        let last = list.last()@;
        lemma_settlement_is_granted(ledger, prefix, pool);
        lemma_settlement_clears_the_listed(ledger, prefix, pool);
        let before = settled(ledger, prefix, pool).unwrap();
        lemma_nothing_for_nothing(pool);
        if lookup(before.ledger, last) is Some {
            assert(lookup(before.ledger, last) == lookup(ledger, last));
            let k = index_of(ledger, last);
            assert(0 <= k < ledger.len() && ledger[k].0 == last);
            assert(claimable(ledger[k].1, pool) is Ok);
        }
    }
}

/// While the books are in order, a replacement is owed to the administrator:
/// when the accumulator can be brought up to date and the new list is
/// admissible, `set_beneficiaries` accepts it. The ledger is never found
/// inconsistent.
pub proof fn lemma_replacement_is_granted(
    world: World,
    sender: Seq<char>,
    beneficiaries: Seq<Beneficiary>,
    decimal_places: u8,
)
    requires
        in_order(world),
        world.balance <= u128::MAX,
        world.store.config matches Some(config) && config.admin@ == sender,
        refreshed(world.store.tax_pool.unwrap(), world.balance as u128) is Ok,
        admission(beneficiaries, decimal_places) is Ok,
    ensures
        replacement(
            world.store,
            Some(world.balance as u128),
            sender,
            beneficiaries,
            decimal_places,
        ) is Ok,
{
    let pool = world.store.tax_pool.unwrap();
    let ledger = world.store.ledger;
    let current = refreshed(pool, world.balance as u128).unwrap();
    assert forall|i: int| 0 <= i < ledger.len() implies claimable(
        (#[trigger] ledger[i]).1,
        current,
    ) is Ok by {
        lemma_owed_is_claimable(world, i);
    }
    lemma_settlement_is_granted(ledger, world.store.beneficiaries_list.unwrap(), current);
}

/// A settlement pays exactly what the settled entries are owed: what it
/// pays and what the entries that it leaves are owed make up what the whole
/// ledger was owed.
pub proof fn lemma_settlement_pays_what_is_owed(
    ledger: Ledger,
    list: Seq<String>,
    pool: TaxPool,
    income: nat,
)
    requires
        distinct_keys(ledger),
        settled(ledger, list, pool) is Ok,
        pool.acc_tax_per_share == acc_per_share(income, pool.total_weight as nat),
    ensures
        paid_out(settled(ledger, list, pool).unwrap().payments) + outstanding(
            settled(ledger, list, pool).unwrap().ledger,
            income,
            pool.total_weight as nat,
        ) == outstanding(ledger, income, pool.total_weight as nat),
    decreases list.len(),
{
    let tw = pool.total_weight as nat;
    let outcome = settled(ledger, list, pool).unwrap();
    let amounts = |p: u128| p as nat;
    if list.len() == 0 {
        assert(outcome.payments.map_values(amounts) =~= Seq::<nat>::empty());
    } else {
        let prefix = list.drop_last();
        let last = list.last()@;
        let before = settled(ledger, prefix, pool).unwrap();
        lemma_settlement_pays_what_is_owed(ledger, prefix, pool, income);
        lemma_settlement_clears_the_listed(ledger, prefix, pool);
        let payment = claimable(entry_or_empty(before.ledger, last), pool).unwrap();
        assert(outcome.payments == before.payments.push(payment));
        assert(outcome.payments.map_values(amounts).drop_last() =~= before.payments.map_values(
            amounts,
        ));
        assert(paid_out(outcome.payments) == paid_out(before.payments) + payment);
        if has_key(before.ledger, last) {
            let k = index_of(before.ledger, last);
            assert(0 <= k < before.ledger.len() && before.ledger[k].0 == last);
            lemma_index_of(before.ledger, k);
            let entry = before.ledger[k].1;
            lemma_share_bounded(entry.weight, pool.acc_tax_per_share);
            assert(payment == owed_to(entry, income, tw));
            assert(outcome.ledger == before.ledger.remove(k));
            assert(claims_of(outcome.ledger, income, tw) =~= claims_of(
                before.ledger,
                income,
                tw,
            ).remove(k));
            lemma_total_remove(claims_of(before.ledger, income, tw), k);
        } else {
            lemma_nothing_for_nothing(pool);
            assert(outcome.ledger == before.ledger);
        }
    }
}

/// After the set of beneficiaries was replaced, nothing is left of the old
/// one: every old entry is deleted, an old beneficiary that is not named
/// again has no entry, every entry of the new ledger records nothing paid and
/// can claim nothing from the new accumulator, which stays as it is while
/// the pool is empty, and the accounts are in order for whatever the pool
/// holds then.
pub proof fn lemma_replacement_starts_afresh(
    store: StorageView,
    answer: Option<u128>,
    sender: Seq<char>,
    new_beneficiaries: Seq<Beneficiary>,
    decimal_places: u8,
    balance: nat,
)
    requires
        distinct_keys(store.ledger),
        store.beneficiaries_list is Some,
        all_listed(store.ledger, store.beneficiaries_list.unwrap()),
        replacement(store, answer, sender, new_beneficiaries, decimal_places) is Ok,
    ensures
        ({
            let (outcome, fresh) = replacement(
                store,
                answer,
                sender,
                new_beneficiaries,
                decimal_places,
            ).unwrap();
            let list = store.beneficiaries_list.unwrap();
            let next = after_replacement(store, outcome, fresh, new_beneficiaries);
            &&& outcome.ledger.len() == 0
            &&& next.ledger == fresh_ledger(new_beneficiaries)
            &&& forall|key: Seq<char>|
                listed(list, key) && !listed(addresses_of(new_beneficiaries), key) ==> lookup(
                    next.ledger,
                    key,
                ) is None
            &&& forall|i: int|
                0 <= i < next.ledger.len() ==> (#[trigger] next.ledger[i]).1.withdrawn == 0
                    && claimable(next.ledger[i].1, fresh) == Ok::<u128, ContractError>(0)
            &&& refreshed(fresh, 0) == Ok::<TaxPool, ContractError>(fresh)
            &&& accounts_in_order(next, balance)
        }),
{
    let (outcome, fresh) = replacement(
        store,
        answer,
        sender,
        new_beneficiaries,
        decimal_places,
    ).unwrap();
    let list = store.beneficiaries_list.unwrap();
    let current = updated(store.tax_pool.unwrap(), answer).unwrap();
    let next = after_replacement(store, outcome, fresh, new_beneficiaries);
    lemma_settlement_empties_the_ledger(store.ledger, list, current);
    lemma_accepted_weights_are_whole(new_beneficiaries, decimal_places);
    lemma_denominator_divides_scale(decimal_places);
    lemma_admitted_to_empty(new_beneficiaries);
    assert forall|key: Seq<char>|
        listed(list, key) && !listed(addresses_of(new_beneficiaries), key) implies lookup(
        next.ledger,
        key,
    ) is None by {
        if has_key(next.ledger, key) {
            let i = index_of(next.ledger, key);
            assert(0 <= i < next.ledger.len() && next.ledger[i].0 == key);
            assert(listed(addresses_of(new_beneficiaries), next.ledger[i].0));
        }
    }
    assert forall|i: int| 0 <= i < next.ledger.len() implies (
    #[trigger] next.ledger[i]).1.withdrawn == 0 && claimable(next.ledger[i].1, fresh) == Ok::<
        u128,
        ContractError,
    >(0) by {
        assert(next.ledger[i].1.weight as nat * 0 == 0);
    }
}

/// A replacement settles exactly what is owed: while the books are in
/// order, the transfers of `set_beneficiaries` add up to all that the
/// beneficiaries could claim, the balance covers them, and the books are in
/// order afterwards.
pub proof fn lemma_replacement_settles_what_is_owed(
    world: World,
    sender: Seq<char>,
    beneficiaries: Seq<Beneficiary>,
    decimal_places: u8,
)
    requires
        in_order(world),
        world.balance <= u128::MAX,
        replacement(
            world.store,
            Some(world.balance as u128),
            sender,
            beneficiaries,
            decimal_places,
        ) is Ok,
    ensures
        ({
            let (outcome, fresh) = replacement(
                world.store,
                Some(world.balance as u128),
                sender,
                beneficiaries,
                decimal_places,
            ).unwrap();
            &&& paid_out(outcome.payments) == owed(world)
            &&& paid_out(outcome.payments) <= world.balance
            &&& in_order(step(world, Step::Replace { sender, beneficiaries, decimal_places }))
        }),
{
    let (outcome, fresh) = replacement(
        world.store,
        Some(world.balance as u128),
        sender,
        beneficiaries,
        decimal_places,
    ).unwrap();
    let pool = world.store.tax_pool.unwrap();
    let list = world.store.beneficiaries_list.unwrap();
    let current = updated(pool, Some(world.balance as u128)).unwrap();
    let tw = pool.total_weight as nat;
    lemma_settlement_pays_what_is_owed(world.store.ledger, list, current, income(world));
    lemma_settlement_empties_the_ledger(world.store.ledger, list, current);
    assert(claims_of(outcome.ledger, income(world), tw) =~= Seq::<nat>::empty());
    lemma_claims_covered(world);
    let next = step(world, Step::Replace { sender, beneficiaries, decimal_places });
    lemma_replacement_starts_afresh(
        world.store,
        Some(world.balance as u128),
        sender,
        beneficiaries,
        decimal_places,
        next.balance,
    );
}

/// A beneficiary that was just admitted can claim its weight's part of
/// whatever the pool holds, rounded down: with the accumulator of a new set,
/// brought up to date with a balance, an entry with nothing paid is owed
/// `weight * balance / 10^decimal_places`.
pub proof fn lemma_fresh_entry_claims_its_part(decimal_places: u8, weight: u16, balance: u128)
    requires
        fresh_pool(decimal_places) is Ok,
        refreshed(fresh_pool(decimal_places).unwrap(), balance) is Ok,
    ensures
        (weight as nat * balance as nat) / (pow(10, decimal_places as nat) as nat) <= u128::MAX,
        claimable(
            StoredBeneficiary { weight, withdrawn: 0 },
            refreshed(fresh_pool(decimal_places).unwrap(), balance).unwrap(),
        ) == Ok::<u128, ContractError>(
            ((weight as nat * balance as nat) / (pow(10, decimal_places as nat) as nat)) as u128,
        ),
{
    let fresh = fresh_pool(decimal_places).unwrap();
    let current = refreshed(fresh, balance).unwrap();
    let tw = fresh.total_weight as nat;
    lemma_denominator_divides_scale(decimal_places);
    lemma_share_is_proportion(weight as nat, balance as nat, tw);
    lemma_share_bounded(weight, current.acc_tax_per_share);
    lemma_pow_positive(10, decimal_places as nat);
    assert(tw == pow(10, decimal_places as nat) as nat);
    assert(current.acc_tax_per_share == acc_per_share(balance as nat, tw));
    assert(lifetime_share(weight as nat, current.acc_tax_per_share as nat) == (weight as nat
        * balance as nat) / tw);
}

/// After a replacement, every new beneficiary can claim its weight's part of
/// what the pool still holds, rounded down, and nothing while the pool is
/// empty. What the settlement left in the pool through rounding is shared by
/// the new set.
pub proof fn lemma_new_beneficiaries_claim_their_part(
    store: StorageView,
    answer: Option<u128>,
    sender: Seq<char>,
    new_beneficiaries: Seq<Beneficiary>,
    decimal_places: u8,
    balance: u128,
    i: int,
)
    requires
        distinct_keys(store.ledger),
        store.beneficiaries_list is Some,
        all_listed(store.ledger, store.beneficiaries_list.unwrap()),
        replacement(store, answer, sender, new_beneficiaries, decimal_places) is Ok,
        0 <= i < new_beneficiaries.len(),
        refreshed(fresh_pool(decimal_places).unwrap(), balance) is Ok,
    ensures
        ({
            let (outcome, fresh) = replacement(
                store,
                answer,
                sender,
                new_beneficiaries,
                decimal_places,
            ).unwrap();
            let next = after_replacement(store, outcome, fresh, new_beneficiaries);
            let part = (new_beneficiaries[i].weight as nat * balance as nat) / (pow(
                10,
                decimal_places as nat,
            ) as nat);
            &&& current_balance(next, Some(balance), new_beneficiaries[i].address@) == Ok::<
                u128,
                ContractError,
            >(part as u128)
            &&& balance == 0 ==> part == 0
        }),
{
    let (outcome, fresh) = replacement(
        store,
        answer,
        sender,
        new_beneficiaries,
        decimal_places,
    ).unwrap();
    let next = after_replacement(store, outcome, fresh, new_beneficiaries);
    lemma_replacement_starts_afresh(
        store,
        answer,
        sender,
        new_beneficiaries,
        decimal_places,
        balance as nat,
    );
    lemma_index_of(next.ledger, i);
    lemma_fresh_entry_claims_its_part(decimal_places, new_beneficiaries[i].weight, balance);
    if balance == 0 {
        assert(new_beneficiaries[i].weight as nat * 0 == 0);
    }
}

} // verus!
