//! What holds of the engine over time: the books balance, also where the
//! administrator sweeps the pool; until then the pool covers every claim,
//! nothing is paid twice, and rounding keeps back less than one unit for each
//! beneficiary.
use vstd::prelude::*;
use crate::admission::{
    initial_store, lemma_accepted_weights_are_whole, lemma_admitted_to_empty,
    lemma_denominator_divides_scale,
};
use crate::contract::{
    admission, after_replacement, after_withdrawal, current_balance, handle_ensures, init_ensures,
    query_ensures, replacement, sweep, withdrawal,
};
use crate::error::ContractError;
use crate::msg::{
    Deps, Env, HandleMsg, HandleResponse, InitMsg, InitResponse, QueryAnswer, QueryMsg,
};
use crate::querier::Querier;
use crate::settling::{lemma_replacement_settles_what_is_owed, paid_out};
use crate::state::{
    acc_per_share, Beneficiary, claimable, Config, lemma_share_bounded, lifetime_share, refreshed,
    REWARD_SCALE, StoredBeneficiary, TaxPool, updated,
};
use crate::store::{
    distinct_keys, has_key, index_of, Ledger, lemma_index_of, lemma_with_entry, lookup,
    StorageView,
};
use crate::sums::{
    ledger_shares, ledger_weight, ledger_withdrawn, lemma_share_monotonic, lemma_shares_exact,
    lemma_shares_rounded_down, lemma_shares_rounding, lemma_shares_within_income,
    lemma_total_bounds, lemma_total_update, shares_of, splits_evenly, total, weights_of,
    withdrawn_of,
};

verus! {

/// What an entry can claim from a lifetime income: its share less what it
/// was paid.
pub open spec fn owed_to(entry: StoredBeneficiary, income: nat, total_weight: nat) -> nat {
    let share = lifetime_share(entry.weight as nat, acc_per_share(income, total_weight));
    (share - entry.withdrawn) as nat
}

/// What the entries of a ledger can claim from a lifetime income, in order.
pub open spec fn claims_of(ledger: Ledger, income: nat, total_weight: nat) -> Seq<nat> {
    ledger.map_values(
        |e: (Seq<char>, StoredBeneficiary)| owed_to(e.1, income, total_weight),
    )
}

/// All that is owed to the beneficiaries and not yet paid.
pub open spec fn outstanding(ledger: Ledger, income: nat, total_weight: nat) -> nat {
    total(claims_of(ledger, income, total_weight))
}

/// No entry was paid more than its share of the income.
pub open spec fn within_shares(ledger: Ledger, income: nat, total_weight: nat) -> bool {
    forall|i: int|
        0 <= i < ledger.len() ==> (#[trigger] ledger[i]).1.withdrawn <= lifetime_share(
            ledger[i].1.weight as nat,
            acc_per_share(income, total_weight),
        )
}

/// What is owed and what was paid make up the shares.
pub proof fn lemma_outstanding(ledger: Ledger, income: nat, total_weight: nat)
    requires
        within_shares(ledger, income, total_weight),
    ensures
        outstanding(ledger, income, total_weight) + ledger_withdrawn(ledger) == ledger_shares(
            ledger,
            acc_per_share(income, total_weight),
        ),
    decreases ledger.len(),
{
    if ledger.len() > 0 {
        let rest = ledger.drop_last();
        let acc = acc_per_share(income, total_weight);
        assert(within_shares(rest, income, total_weight)) by {
            assert forall|i: int| 0 <= i < rest.len() implies (#[trigger] rest[i]).1.withdrawn
                <= lifetime_share(rest[i].1.weight as nat, acc) by {
                assert(rest[i] == ledger[i]);
            }
        }
        lemma_outstanding(rest, income, total_weight);
        assert(claims_of(ledger, income, total_weight).drop_last() == claims_of(
            rest,
            income,
            total_weight,
        ));
        assert(withdrawn_of(ledger).drop_last() == withdrawn_of(rest));
        assert(shares_of(ledger, acc).drop_last() == shares_of(rest, acc));
        assert(ledger[ledger.len() - 1] == ledger.last());
    }
}

/// The pool with its store and its balance, and all that it has received,
/// paid to beneficiaries and had swept by the administrator since it was set
/// up.
pub struct World {
    pub store: StorageView,
    pub balance: nat,
    pub received: nat,
    pub paid: nat,
    pub swept: nat,
}

/// What can happen to the pool: value arrives, a beneficiary withdraws, the
/// set of beneficiaries is replaced, or the administrator sweeps the pool.
pub enum Step {
    Deposit { amount: u128 },
    Withdraw { sender: Seq<char>, requested: Option<u128> },
    Replace { sender: Seq<char>, beneficiaries: Seq<Beneficiary>, decimal_places: u8 },
    Sweep { sender: Seq<char> },
}

/// One step: a deposit adds to the balance; a withdrawal that `withdraw`
/// accepts at the current balance changes the store as `withdraw` does, and
/// the transfer that it emits takes the payment out of the balance; a
/// replacement that `set_beneficiaries` accepts changes the store as
/// `set_beneficiaries` does, and its transfers take the settlement out of the
/// balance; a sweep that `emergency_withdraw` accepts takes the whole balance
/// and leaves the store as it is. A command that is rejected changes nothing,
/// and neither does one whose transfers the balance does not cover: the host
/// cannot carry them out and drops the command with them.
pub open spec fn step(world: World, s: Step) -> World {
    match s {
        Step::Deposit { amount } => World {
            balance: world.balance + amount as nat,
            received: world.received + amount as nat,
            ..world
        },
        Step::Withdraw { sender, requested } => if world.balance > u128::MAX {
            world
        } else {
            match withdrawal(world.store, Some(world.balance as u128), sender, requested) {
                Ok(w) => if w.paid <= world.balance {
                    World {
                        store: after_withdrawal(world.store, sender, w),
                        balance: (world.balance - w.paid) as nat,
                        paid: world.paid + w.paid as nat,
                        ..world
                    }
                } else {
                    world
                },
                Err(_) => world,
            }
        },
        Step::Replace { sender, beneficiaries, decimal_places } => if world.balance > u128::MAX {
            world
        } else {
            match replacement(
                world.store,
                Some(world.balance as u128),
                sender,
                beneficiaries,
                decimal_places,
            ) {
                Ok((outcome, fresh)) => if paid_out(outcome.payments) <= world.balance {
                    World {
                        store: after_replacement(world.store, outcome, fresh, beneficiaries),
                        balance: (world.balance - paid_out(outcome.payments)) as nat,
                        paid: world.paid + paid_out(outcome.payments),
                        ..world
                    }
                } else {
                    world
                },
                Err(_) => world,
            }
        },
        Step::Sweep { sender } => if world.balance > u128::MAX {
            world
        } else {
            match sweep(world.store, Some(world.balance as u128), sender) {
                Ok(amount) => World {
                    balance: (world.balance - amount) as nat,
                    swept: world.swept + amount as nat,
                    ..world
                },
                Err(_) => world,
            }
        },
    }
}

/// A sequence of steps, one after the other.
pub open spec fn run(world: World, steps: Seq<Step>) -> World
    decreases steps.len(),
{
    if steps.len() == 0 {
        world
    } else {
        step(run(world, steps.drop_last()), steps.last())
    }
}

/// Whether an address is in a list.
pub open spec fn listed(list: Seq<String>, address: Seq<char>) -> bool {
    exists|j: int| 0 <= j < list.len() && (#[trigger] list[j])@ == address
}

/// A list names no address twice.
pub open spec fn each_listed_once(list: Seq<String>) -> bool {
    forall|i: int, j: int|
        0 <= i < j < list.len() ==> (#[trigger] list[i])@ != (#[trigger] list[j])@
}

/// Every address with a ledger entry is in the list.
pub open spec fn all_listed(ledger: Ledger, list: Seq<String>) -> bool {
    forall|i: int| 0 <= i < ledger.len() ==> listed(list, (#[trigger] ledger[i]).0)
}

/// What the current set of beneficiaries shares: the balance and what the
/// accumulator records as paid.
pub open spec fn income(world: World) -> nat {
    world.balance + world.store.tax_pool.unwrap().total_withdrawn as nat
}

/// The accounts are in order for a balance: the accumulator has a
/// denominator, which divides the scale, no address is listed twice or has
/// two entries, every entry belongs to a listed beneficiary, the weights make
/// up the denominator, the accumulator's paid-out total is the sum of what
/// the entries were paid, and no entry was paid more than its share of the
/// balance and all that was paid.
pub open spec fn accounts_in_order(store: StorageView, balance: nat) -> bool {
    &&& store.tax_pool matches Some(pool)
    &&& store.beneficiaries_list matches Some(list)
    &&& pool.total_weight > 0
    &&& (REWARD_SCALE as nat) % (pool.total_weight as nat) == 0
    &&& each_listed_once(list)
    &&& distinct_keys(store.ledger)
    &&& all_listed(store.ledger, list)
    &&& ledger_weight(store.ledger) == pool.total_weight
    &&& ledger_withdrawn(store.ledger) == pool.total_withdrawn
    &&& within_shares(
        store.ledger,
        balance + pool.total_withdrawn as nat,
        pool.total_weight as nat,
    )
}

/// The books balance: all that was received was paid to beneficiaries, was
/// swept by the administrator, or is in the pool.
pub open spec fn books_balance(world: World) -> bool {
    world.paid + world.swept + world.balance == world.received
}

/// The books are in order: the accounts are, and the books balance.
pub open spec fn in_order(world: World) -> bool {
    &&& accounts_in_order(world.store, world.balance)
    &&& books_balance(world)
}

/// All that the beneficiaries can claim now.
pub open spec fn owed(world: World) -> nat {
    outstanding(
        world.store.ledger,
        income(world),
        world.store.tax_pool.unwrap().total_weight as nat,
    )
}

/// The pool covers every claim: while the books are in order, what is owed
/// is at most the balance, so what was paid and what is owed never exceed
/// what was received.
pub proof fn lemma_claims_covered(world: World)
    requires
        in_order(world),
    ensures
        owed(world) <= world.balance,
        world.paid + world.swept + owed(world) <= world.received,
{
    let pool = world.store.tax_pool.unwrap();
    lemma_outstanding(world.store.ledger, income(world), pool.total_weight as nat);
    lemma_shares_within_income(world.store.ledger, income(world), pool.total_weight as nat);
}

/// While the books are in order, the accumulator that `refresh` gives at the
/// current balance carries the accrual of all that was received, and what
/// `get_balance` gives for an entry is what the entry is owed.
pub proof fn lemma_owed_is_claimable(world: World, i: int)
    requires
        in_order(world),
        world.balance <= u128::MAX,
        refreshed(world.store.tax_pool.unwrap(), world.balance as u128) is Ok,
        0 <= i < world.store.ledger.len(),
    ensures
        refreshed(
            world.store.tax_pool.unwrap(),
            world.balance as u128,
        ).unwrap().acc_tax_per_share == acc_per_share(
            income(world),
            world.store.tax_pool.unwrap().total_weight as nat,
        ),
        claimable(
            world.store.ledger[i].1,
            refreshed(world.store.tax_pool.unwrap(), world.balance as u128).unwrap(),
        ) == Ok::<u128, ContractError>(
            owed_to(
                world.store.ledger[i].1,
                income(world),
                world.store.tax_pool.unwrap().total_weight as nat,
            ) as u128,
        ),
{
    let pool = world.store.tax_pool.unwrap();
    let entry = world.store.ledger[i].1;
    lemma_share_bounded(
        entry.weight,
        refreshed(pool, world.balance as u128).unwrap().acc_tax_per_share,
    );
}

/// Every step but a sweep keeps the books in order.
pub proof fn lemma_step_keeps_order(world: World, s: Step)
    requires
        in_order(world),
        !(s is Sweep),
    ensures
        in_order(step(world, s)),
{
    let pool = world.store.tax_pool.unwrap();
    let ledger = world.store.ledger;
    let tw = pool.total_weight as nat;
    match s {
        Step::Deposit { amount } => {
            let next = step(world, s);
            assert forall|i: int| 0 <= i < ledger.len() implies (#[trigger] ledger[i]).1.withdrawn
                <= lifetime_share(
                ledger[i].1.weight as nat,
                acc_per_share(income(next), tw),
            ) by {
                lemma_share_monotonic(ledger[i].1.weight as nat, income(world), income(next), tw);
            }
        },
        Step::Withdraw { sender, requested } => {
            if world.balance <= u128::MAX {
                match withdrawal(world.store, Some(world.balance as u128), sender, requested) {
                    Ok(w) => {
                        let k = index_of(ledger, sender);
                        assert(has_key(ledger, sender));
                        assert(0 <= k < ledger.len() && ledger[k].0 == sender);
                        lemma_index_of(ledger, k);
                        lemma_owed_is_claimable(world, k);
                        lemma_with_entry(ledger, sender, w.entry);
                        // the payment is covered by the balance
                        lemma_claims_covered(world);
                        lemma_total_bounds(claims_of(ledger, income(world), tw), k);
                        assert(w.paid <= world.balance);
                        let next = step(world, s);
                        let after = next.store.ledger;
                        assert(after == ledger.update(k, (sender, w.entry)));
                        // the weights stay, the paid amounts grow by the payment
                        assert(weights_of(after) =~= weights_of(ledger));
                        assert(withdrawn_of(after) =~= withdrawn_of(ledger).update(
                            k,
                            w.entry.withdrawn as nat,
                        ));
                        lemma_total_update(withdrawn_of(ledger), k, w.entry.withdrawn as nat);
                        assert(withdrawn_of(ledger)[k] == ledger[k].1.withdrawn);
                        lemma_share_bounded(
                            ledger[k].1.weight,
                            refreshed(pool, world.balance as u128).unwrap().acc_tax_per_share,
                        );
                        assert(w.entry.withdrawn == ledger[k].1.withdrawn + w.paid);
                        assert(w.pool.total_withdrawn == pool.total_withdrawn + w.paid);
                        assert(ledger_withdrawn(after) == pool.total_withdrawn + w.paid);
                        assert forall|i: int| 0 <= i < after.len() implies (
                        #[trigger] after[i]).1.withdrawn <= lifetime_share(
                            after[i].1.weight as nat,
                            acc_per_share(income(next), tw),
                        ) by {
                            if i != k {
                                assert(after[i] == ledger[i]);
                            }
                        }
                        assert forall|i: int| 0 <= i < after.len() implies listed(
                            world.store.beneficiaries_list.unwrap(),
                            (#[trigger] after[i]).0,
                        ) by {
                            assert(after[i].0 == ledger[i].0);
                        }
                    },
                    Err(_) => {},
                }
            }
        },
        Step::Replace { sender, beneficiaries, decimal_places } => {
            if world.balance <= u128::MAX && replacement(
                world.store,
                Some(world.balance as u128),
                sender,
                beneficiaries,
                decimal_places,
            ) is Ok {
                lemma_replacement_settles_what_is_owed(
                    world,
                    sender,
                    beneficiaries,
                    decimal_places,
                );
            }
        },
        Step::Sweep { sender } => {},
    }
}

/// The books always balance: whatever is deposited, withdrawn, replaced and
/// swept, in whatever order, all that was received was paid to beneficiaries,
/// was swept by the administrator, or is in the pool.
pub proof fn lemma_books_balance(start: World, steps: Seq<Step>)
    requires
        books_balance(start),
    ensures
        books_balance(run(start, steps)),
    decreases steps.len(),
{
    if steps.len() > 0 {
        lemma_books_balance(start, steps.drop_last());
    }
}

/// No step of a sequence is a sweep.
pub open spec fn without_sweep(steps: Seq<Step>) -> bool {
    forall|i: int| 0 <= i < steps.len() ==> !(#[trigger] steps[i] is Sweep)
}

/// Conservation: whatever is deposited and withdrawn, and however often the
/// beneficiaries are replaced, in whatever order, the books stay in order as
/// long as the administrator does not sweep the pool. So what was paid, what
/// was swept before and what is still owed never exceed what was received.
pub proof fn lemma_conservation(start: World, steps: Seq<Step>)
    requires
        in_order(start),
        without_sweep(steps),
    ensures
        in_order(run(start, steps)),
        run(start, steps).paid + run(start, steps).swept + owed(run(start, steps)) <= run(
            start,
            steps,
        ).received,
    decreases steps.len(),
{
    if steps.len() > 0 {
        let before = steps.drop_last();
        assert forall|i: int| 0 <= i < before.len() implies !(#[trigger] before[i] is Sweep) by {
            assert(before[i] == steps[i]);
        }
        lemma_conservation(start, before);
        assert(steps.last() == steps[steps.len() - 1]);
        lemma_step_keeps_order(run(start, before), steps.last());
    }
    lemma_claims_covered(run(start, steps));
}

/// Conservation to the last unit: while the books are in order, what was
/// paid, what was swept and what is still owed are exactly what was received
/// if and only if the income of the current beneficiaries splits among their
/// weights without remainder. In every other case rounding keeps the
/// difference in the pool.
pub proof fn lemma_conservation_exact(world: World)
    requires
        in_order(world),
    ensures
        world.paid + world.swept + owed(world) == world.received <==> splits_evenly(
            world.store.ledger,
            income(world),
            world.store.tax_pool.unwrap().total_weight as nat,
        ),
{
    let pool = world.store.tax_pool.unwrap();
    let ledger = world.store.ledger;
    let tw = pool.total_weight as nat;
    let all = income(world);
    let shares = ledger_shares(ledger, acc_per_share(all, tw));
    lemma_outstanding(ledger, all, tw);
    lemma_shares_rounded_down(ledger, all, tw);
    assert(world.paid + world.swept + owed(world) == world.received <==> shares == all);
    if splits_evenly(ledger, all, tw) {
        lemma_shares_exact(ledger, all, tw);
        assert(shares == all) by (nonlinear_arith)
            requires
                tw * shares == tw * all,
                tw > 0,
        ;
    } else {
        assert(shares != all) by (nonlinear_arith)
            requires
                tw * shares < tw * all,
        ;
    }
}

/// A pool that was just set up holds its balance and has paid nothing.
pub open spec fn genesis(store: StorageView, balance: nat) -> World {
    World { store, balance, received: balance, paid: 0, swept: 0 }
}

/// After `init` on an empty ledger the books are in order, whatever the pool
/// holds.
pub proof fn lemma_init_in_order(
    config: Config,
    beneficiaries: Seq<Beneficiary>,
    decimal_places: u8,
    balance: nat,
)
    requires
        admission(beneficiaries, decimal_places) is Ok,
    ensures
        in_order(
            genesis(
                initial_store(
                    config,
                    admission(beneficiaries, decimal_places).unwrap(),
                    beneficiaries,
                ),
                balance,
            ),
        ),
{
    lemma_accepted_weights_are_whole(beneficiaries, decimal_places);
    lemma_denominator_divides_scale(decimal_places);
    lemma_admitted_to_empty(beneficiaries);
}

/// Default to full: a withdrawal without an amount pays all that the sender
/// can claim, and leaves the sender's entry with nothing to claim against the
/// accumulator that it stores.
pub proof fn lemma_default_pays_in_full(store: StorageView, answer: Option<u128>, sender: Seq<char>)
    requires
        withdrawal(store, answer, sender, None) is Ok,
    ensures
        current_balance(store, answer, sender) == Ok::<u128, ContractError>(
            withdrawal(store, answer, sender, None).unwrap().paid,
        ),
        claimable(
            withdrawal(store, answer, sender, None).unwrap().entry,
            withdrawal(store, answer, sender, None).unwrap().pool,
        ) == Ok::<u128, ContractError>(0),
{
    let entry = lookup(store.ledger, sender).unwrap();
    let current = updated(store.tax_pool.unwrap(), answer).unwrap();
    lemma_share_bounded(entry.weight, current.acc_tax_per_share);
}

/// While the books are in order, a withdrawal is owed to every beneficiary:
/// when the configuration is stored, the sender has a ledger entry and the
/// accumulator can be brought up to date, a withdrawal without an amount is
/// granted, and so is one of any amount up to what the sender can claim. The
/// ledger is never found inconsistent.
pub proof fn lemma_withdrawal_is_granted(world: World, sender: Seq<char>, requested: Option<u128>)
    requires
        in_order(world),
        world.balance <= u128::MAX,
        world.store.config is Some,
        has_key(world.store.ledger, sender),
        refreshed(world.store.tax_pool.unwrap(), world.balance as u128) is Ok,
    ensures
        current_balance(world.store, Some(world.balance as u128), sender) is Ok,
        requested matches Some(amount) ==> (withdrawal(
            world.store,
            Some(world.balance as u128),
            sender,
            requested,
        ) is Ok <==> amount <= current_balance(
            world.store,
            Some(world.balance as u128),
            sender,
        ).unwrap()),
        requested is None ==> withdrawal(
            world.store,
            Some(world.balance as u128),
            sender,
            requested,
        ) is Ok,
{
    let pool = world.store.tax_pool.unwrap();
    let ledger = world.store.ledger;
    let tw = pool.total_weight as nat;
    let k = index_of(ledger, sender);
    assert(0 <= k < ledger.len() && ledger[k].0 == sender);
    lemma_index_of(ledger, k);
    lemma_owed_is_claimable(world, k);
    lemma_claims_covered(world);
    lemma_total_bounds(claims_of(ledger, income(world), tw), k);
    let current = refreshed(pool, world.balance as u128).unwrap();
    lemma_share_bounded(ledger[k].1.weight, current.acc_tax_per_share);
}

/// A withdrawal takes exactly what it pays off the beneficiary's claim: once
/// the payment has left the pool, the beneficiary can claim what it could
/// claim before less the payment, and the payment was covered by the
/// balance. After a withdrawal without an amount nothing is left to claim.
pub proof fn lemma_claim_after_withdrawal(
    world: World,
    sender: Seq<char>,
    requested: Option<u128>,
)
    requires
        in_order(world),
        world.balance <= u128::MAX,
        withdrawal(world.store, Some(world.balance as u128), sender, requested) is Ok,
    ensures
        ({
            let w = withdrawal(
                world.store,
                Some(world.balance as u128),
                sender,
                requested,
            ).unwrap();
            let next = step(world, Step::Withdraw { sender, requested });
            let before = current_balance(world.store, Some(world.balance as u128), sender);
            let after = current_balance(next.store, Some(next.balance as u128), sender);
            &&& in_order(next)
            &&& w.paid <= world.balance
            &&& next.balance == world.balance - w.paid
            &&& before is Ok
            &&& w.paid <= before.unwrap()
            &&& after == Ok::<u128, ContractError>((before.unwrap() - w.paid) as u128)
            &&& requested is None ==> w.paid == before.unwrap() && after == Ok::<
                u128,
                ContractError,
            >(0)
        }),
{
    let pool = world.store.tax_pool.unwrap();
    let ledger = world.store.ledger;
    let tw = pool.total_weight as nat;
    let s = Step::Withdraw { sender, requested };
    let w = withdrawal(world.store, Some(world.balance as u128), sender, requested).unwrap();
    let next = step(world, s);
    lemma_step_keeps_order(world, s);
    let k = index_of(ledger, sender);
    assert(has_key(ledger, sender));
    assert(0 <= k < ledger.len() && ledger[k].0 == sender);
    lemma_index_of(ledger, k);
    lemma_owed_is_claimable(world, k);
    lemma_with_entry(ledger, sender, w.entry);
    lemma_claims_covered(world);
    lemma_total_bounds(claims_of(ledger, income(world), tw), k);
    let current = refreshed(pool, world.balance as u128).unwrap();
    lemma_share_bounded(ledger[k].1.weight, current.acc_tax_per_share);
    assert(w.paid <= world.balance);
    assert(next.balance + w.pool.total_withdrawn == income(world));
    assert(refreshed(w.pool, next.balance as u128) == Ok::<TaxPool, ContractError>(w.pool));
}

/// No double payment: when a beneficiary has withdrawn all that it could
/// claim, with or without naming the amount, and nothing has arrived since,
/// it can claim nothing, and a second withdrawal pays nothing.
pub proof fn lemma_no_double_payment(world: World, sender: Seq<char>, requested: Option<u128>)
    requires
        in_order(world),
        world.balance <= u128::MAX,
        withdrawal(world.store, Some(world.balance as u128), sender, requested) is Ok,
        current_balance(world.store, Some(world.balance as u128), sender) == Ok::<
            u128,
            ContractError,
        >(withdrawal(world.store, Some(world.balance as u128), sender, requested).unwrap().paid),
    ensures
        ({
            let next = step(world, Step::Withdraw { sender, requested });
            &&& current_balance(next.store, Some(next.balance as u128), sender) == Ok::<
                u128,
                ContractError,
            >(0)
            &&& withdrawal(next.store, Some(next.balance as u128), sender, None) matches Ok(second)
            &&& second.paid == 0
        }),
{
    lemma_claim_after_withdrawal(world, sender, requested);
    let w = withdrawal(world.store, Some(world.balance as u128), sender, requested).unwrap();
    lemma_with_entry(world.store.ledger, sender, w.entry);
}

/// What rounding keeps back: while the books are in order, what was paid,
/// swept and owed falls short of what was received by less than one unit for
/// each ledger entry.
pub proof fn lemma_rounding_keeps_less_than_one_each(world: World)
    requires
        in_order(world),
    ensures
        world.paid + world.swept + owed(world) <= world.received,
        world.received < world.paid + world.swept + owed(world) + world.store.ledger.len(),
{
    let ledger = world.store.ledger;
    let tw = world.store.tax_pool.unwrap().total_weight as nat;
    lemma_claims_covered(world);
    lemma_outstanding(ledger, income(world), tw);
    lemma_shares_rounding(ledger, income(world), tw);
    let shares = ledger_shares(ledger, acc_per_share(income(world), tw));
    let n = ledger.len();
    assert(n > 0) by {
        if n == 0 {
            assert(weights_of(ledger) =~= Seq::<nat>::empty());
        }
    }
    assert(income(world) < shares + n) by (nonlinear_arith)
        requires
            tw * shares + n * tw >= tw * income(world) + n,
            tw > 0,
            n > 0,
    ;
}

/// What `init` does is the same whatever the oracle would answer.
pub proof fn lemma_init_reads_no_balance(
    before: Deps,
    env: Env,
    msg: InitMsg,
    after: Deps,
    r: Result<InitResponse, ContractError>,
    other: Querier,
)
    requires
        init_ensures(before, env, msg, after, r),
    ensures
        init_ensures(
            Deps { querier: other, ..before },
            env,
            msg,
            Deps { querier: other, ..after },
            r,
        ),
{
}

/// What a command that reads no balance does is the same whatever the oracle
/// would answer.
pub proof fn lemma_handle_reads_no_balance(
    before: Deps,
    env: Env,
    msg: HandleMsg,
    after: Deps,
    r: Result<HandleResponse, ContractError>,
    other: Querier,
)
    requires
        msg is ChangeAdmin,
        handle_ensures(before, env, msg, after, r),
    ensures
        handle_ensures(
            Deps { querier: other, ..before },
            env,
            msg,
            Deps { querier: other, ..after },
            r,
        ),
{
}

/// The answer to a question that reads no balance is the same whatever the
/// oracle would answer.
pub proof fn lemma_query_reads_no_balance(
    deps: Deps,
    msg: QueryMsg,
    r: Result<QueryAnswer, ContractError>,
    other: Querier,
)
    requires
        !(msg is GetBeneficiaryBalance),
        query_ensures(deps, msg, r),
    ensures
        query_ensures(Deps { querier: other, ..deps }, msg, r),
{
}

} // verus!
