//! Sums over a ledger, and the arithmetic of shares.
use vstd::prelude::*;
use crate::state::{acc_per_share, lifetime_share, REWARD_SCALE};
use crate::store::Ledger;

verus! {

/// The sum of a list of numbers.
pub open spec fn total(numbers: Seq<nat>) -> nat
    decreases numbers.len(),
{
    if numbers.len() == 0 {
        0
    } else {
        total(numbers.drop_last()) + numbers.last()
    }
}

/// Replacing one number changes the sum by the difference.
pub proof fn lemma_total_update(numbers: Seq<nat>, i: int, n: nat)
    requires
        0 <= i < numbers.len(),
    ensures
        total(numbers.update(i, n)) + numbers[i] == total(numbers) + n,
    decreases numbers.len(),
{
    if i == numbers.len() - 1 {
        assert(numbers.update(i, n).drop_last() == numbers.drop_last());
    } else {
        assert(numbers.update(i, n).drop_last() == numbers.drop_last().update(i, n));
        lemma_total_update(numbers.drop_last(), i, n);
    }
}

/// Taking one number out lowers the sum by that number.
pub proof fn lemma_total_remove(numbers: Seq<nat>, i: int)
    requires
        0 <= i < numbers.len(),
    ensures
        total(numbers.remove(i)) + numbers[i] == total(numbers),
    decreases numbers.len(),
{
    if i == numbers.len() - 1 {
        assert(numbers.remove(i) == numbers.drop_last());
    } else {
        assert(numbers.remove(i).drop_last() == numbers.drop_last().remove(i));
        lemma_total_remove(numbers.drop_last(), i);
    }
}

/// A number in a list is at most the sum of the list.
pub proof fn lemma_total_bounds(numbers: Seq<nat>, i: int)
    requires
        0 <= i < numbers.len(),
    ensures
        numbers[i] <= total(numbers),
    decreases numbers.len(),
{
    if i < numbers.len() - 1 {
        lemma_total_bounds(numbers.drop_last(), i);
    }
}

/// The weights of the entries of a ledger, in order.
pub open spec fn weights_of(ledger: Ledger) -> Seq<nat> {
    ledger.map_values(|e: (Seq<char>, crate::state::StoredBeneficiary)| e.1.weight as nat)
}

/// What the entries of a ledger record as paid, in order.
pub open spec fn withdrawn_of(ledger: Ledger) -> Seq<nat> {
    ledger.map_values(|e: (Seq<char>, crate::state::StoredBeneficiary)| e.1.withdrawn as nat)
}

/// The shares of the entries of a ledger in a lifetime income, in order.
pub open spec fn shares_of(ledger: Ledger, acc: nat) -> Seq<nat> {
    ledger.map_values(
        |e: (Seq<char>, crate::state::StoredBeneficiary)| lifetime_share(e.1.weight as nat, acc),
    )
}

/// The sum of the weights in a ledger.
pub open spec fn ledger_weight(ledger: Ledger) -> nat {
    total(weights_of(ledger))
}

/// The sum of what a ledger records as paid.
pub open spec fn ledger_withdrawn(ledger: Ledger) -> nat {
    total(withdrawn_of(ledger))
}

/// The sum of the shares of a ledger's entries.
pub open spec fn ledger_shares(ledger: Ledger, acc: nat) -> nat {
    total(shares_of(ledger, acc))
}

/// Rounding down gives at most the exact quotient, and less than one short
/// of it.
pub proof fn lemma_floor(x: nat, d: nat)
    requires
        d > 0,
    ensures
        d * (x / d) <= x,
        x < d * (x / d) + d,
{
    vstd::arithmetic::div_mod::lemma_fundamental_div_mod(x as int, d as int);
    vstd::arithmetic::div_mod::lemma_mod_bound(x as int, d as int);
}

/// The accrual grows with the income, and a share grows with the accrual.
pub proof fn lemma_share_monotonic(weight: nat, income1: nat, income2: nat, total_weight: nat)
    requires
        total_weight > 0,
        income1 <= income2,
    ensures
        acc_per_share(income1, total_weight) <= acc_per_share(income2, total_weight),
        lifetime_share(weight, acc_per_share(income1, total_weight)) <= lifetime_share(
            weight,
            acc_per_share(income2, total_weight),
        ),
{
    let s = REWARD_SCALE as int;
    let a1 = acc_per_share(income1, total_weight) as int;
    let a2 = acc_per_share(income2, total_weight) as int;
    vstd::arithmetic::div_mod::lemma_div_is_ordered(
        income1 * s,
        income2 * s,
        total_weight as int,
    );
    assert(weight * a1 <= weight * a2) by (nonlinear_arith)
        requires
            a1 <= a2,
            0 <= weight,
    ;
    vstd::arithmetic::div_mod::lemma_div_is_ordered(weight * a1, weight * a2, s);
}

/// The shares of a ledger, scaled, are at most the accrual times the sum of
/// the weights.
pub proof fn lemma_shares_scaled(ledger: Ledger, acc: nat)
    ensures
        (REWARD_SCALE as nat) * ledger_shares(ledger, acc) <= ledger_weight(ledger) * acc,
    decreases ledger.len(),
{
    if ledger.len() == 0 {
        assert(ledger_weight(ledger) * acc == 0) by (nonlinear_arith)
            requires
                ledger_weight(ledger) == 0,
        ;
    } else {
        let rest = ledger.drop_last();
        let w = ledger.last().1.weight as nat;
        lemma_shares_scaled(rest, acc);
        assert(shares_of(ledger, acc).drop_last() == shares_of(rest, acc));
        assert(weights_of(ledger).drop_last() == weights_of(rest));
        lemma_floor(w * acc, REWARD_SCALE as nat);
        assert((ledger_weight(rest) + w) * acc == ledger_weight(rest) * acc + w * acc)
            by (nonlinear_arith);
    }
}

/// No more is shared out than came in: the shares of a ledger whose weights
/// stay within the denominator add up to at most the lifetime income.
pub proof fn lemma_shares_within_income(ledger: Ledger, income: nat, total_weight: nat)
    requires
        total_weight > 0,
        ledger_weight(ledger) <= total_weight,
    ensures
        ledger_shares(ledger, acc_per_share(income, total_weight)) <= income,
{
    let s = REWARD_SCALE as nat;
    let acc = acc_per_share(income, total_weight);
    lemma_shares_scaled(ledger, acc);
    lemma_floor(income * s, total_weight);
    assert(ledger_weight(ledger) * acc <= total_weight * acc) by (nonlinear_arith)
        requires
            ledger_weight(ledger) <= total_weight,
    ;
    assert(s * ledger_shares(ledger, acc) <= income * s);
    assert(ledger_shares(ledger, acc) <= income) by (nonlinear_arith)
        requires
            s * ledger_shares(ledger, acc) <= income * s,
            s > 0,
    ;
}

/// Whether an income splits among the weights of a ledger without
/// remainder.
pub open spec fn splits_evenly(ledger: Ledger, income: nat, total_weight: nat) -> bool {
    forall|i: int|
        0 <= i < ledger.len() ==> ((#[trigger] ledger[i]).1.weight as nat * income) % total_weight
            == 0
}

/// With a denominator that divides the scale, a share is the weight's part
/// of the income, rounded down.
pub proof fn lemma_share_is_proportion(weight: nat, income: nat, total_weight: nat)
    requires
        total_weight > 0,
        (REWARD_SCALE as nat) % total_weight == 0,
    ensures
        acc_per_share(income, total_weight) == income * ((REWARD_SCALE as nat) / total_weight),
        lifetime_share(weight, acc_per_share(income, total_weight)) == (weight * income)
            / total_weight,
{
    let s = REWARD_SCALE as int;
    let w = total_weight as int;
    let k = s / w;
    vstd::arithmetic::div_mod::lemma_fundamental_div_mod(s, w);
    assert(s == w * k);
    assert(k > 0) by (nonlinear_arith)
        requires
            s == w * k,
            s > 0,
            w > 0,
    ;
    // the accrual is exact
    assert(income * s == (income * k) * w) by (nonlinear_arith)
        requires
            s == w * k,
    ;
    vstd::arithmetic::div_mod::lemma_div_multiples_vanish(income * k, w);
    assert(acc_per_share(income, total_weight) == income * k);
    // the share: weight * income * k / (w * k) == weight * income / w
    let x = (weight * income) as int;
    assert(weight * (income * k) == x * k) by (nonlinear_arith)
        requires
            x == weight * income,
    ;
    vstd::arithmetic::div_mod::lemma_fundamental_div_mod(x, w);
    let q = x / w;
    let r = x % w;
    vstd::arithmetic::div_mod::lemma_mod_bound(x, w);
    assert(x * k == q * s + r * k) by (nonlinear_arith)
        requires
            x == w * q + r,
            s == w * k,
    ;
    assert(0 <= r * k < s) by (nonlinear_arith)
        requires
            0 <= r < w,
            s == w * k,
            k > 0,
    ;
    vstd::arithmetic::div_mod::lemma_fundamental_div_mod_converse_div(x * k, s, q, r * k);
}

/// Nothing is lost to rounding when the income splits evenly: the shares of
/// a ledger, taken times the denominator, are the weighted income.
pub proof fn lemma_shares_exact(ledger: Ledger, income: nat, total_weight: nat)
    requires
        total_weight > 0,
        (REWARD_SCALE as nat) % total_weight == 0,
        splits_evenly(ledger, income, total_weight),
    ensures
        total_weight * ledger_shares(ledger, acc_per_share(income, total_weight)) == ledger_weight(
            ledger,
        ) * income,
    decreases ledger.len(),
{
    let acc = acc_per_share(income, total_weight);
    if ledger.len() == 0 {
        assert(ledger_weight(ledger) * income == 0) by (nonlinear_arith)
            requires
                ledger_weight(ledger) == 0,
        ;
        assert(total_weight * ledger_shares(ledger, acc) == 0) by (nonlinear_arith)
            requires
                ledger_shares(ledger, acc) == 0,
        ;
    } else {
        let rest = ledger.drop_last();
        let w = ledger.last().1.weight as nat;
        assert(splits_evenly(rest, income, total_weight)) by {
            assert forall|i: int| 0 <= i < rest.len() implies ((#[trigger] rest[i]).1.weight as nat
                * income) % total_weight == 0 by {
                assert(rest[i] == ledger[i]);
            }
        }
        lemma_shares_exact(rest, income, total_weight);
        assert(shares_of(ledger, acc).drop_last() == shares_of(rest, acc));
        assert(weights_of(ledger).drop_last() == weights_of(rest));
        lemma_share_is_proportion(w, income, total_weight);
        let share = lifetime_share(w, acc);
        assert(ledger[ledger.len() - 1] == ledger.last());
        vstd::arithmetic::div_mod::lemma_fundamental_div_mod(
            (w * income) as int,
            total_weight as int,
        );
        assert(total_weight * share == w * income);
        assert(total_weight * (ledger_shares(rest, acc) + share) == total_weight * ledger_shares(
            rest,
            acc,
        ) + total_weight * share) by (nonlinear_arith);
        assert((ledger_weight(rest) + w) * income == ledger_weight(rest) * income + w * income)
            by (nonlinear_arith);
    }
}

/// Rounding costs each entry less than one unit: with a denominator that
/// divides the scale, the shares of a ledger, taken times the denominator,
/// fall short of the weighted income by less than the denominator for each
/// entry.
pub proof fn lemma_shares_rounding(ledger: Ledger, income: nat, total_weight: nat)
    requires
        total_weight > 0,
        (REWARD_SCALE as nat) % total_weight == 0,
    ensures
        total_weight * ledger_shares(ledger, acc_per_share(income, total_weight)) + ledger.len()
            * total_weight >= ledger_weight(ledger) * income + ledger.len(),
    decreases ledger.len(),
{
    let acc = acc_per_share(income, total_weight);
    if ledger.len() == 0 {
        assert(ledger_weight(ledger) * income == 0) by (nonlinear_arith)
            requires
                ledger_weight(ledger) == 0,
        ;
        assert(total_weight * ledger_shares(ledger, acc) >= 0) by (nonlinear_arith);
        assert(ledger.len() * total_weight == 0) by (nonlinear_arith)
            requires
                ledger.len() == 0,
        ;
    } else {
        let rest = ledger.drop_last();
        let w = ledger.last().1.weight as nat;
        lemma_shares_rounding(rest, income, total_weight);
        assert(shares_of(ledger, acc).drop_last() == shares_of(rest, acc));
        assert(weights_of(ledger).drop_last() == weights_of(rest));
        lemma_share_is_proportion(w, income, total_weight);
        lemma_floor(w * income, total_weight);
        let share = lifetime_share(w, acc);
        assert(total_weight * share + total_weight >= w * income + 1);
        assert(total_weight * (ledger_shares(rest, acc) + share) == total_weight * ledger_shares(
            rest,
            acc,
        ) + total_weight * share) by (nonlinear_arith);
        assert((ledger_weight(rest) + w) * income == ledger_weight(rest) * income + w * income)
            by (nonlinear_arith);
        assert((rest.len() + 1) * total_weight == rest.len() * total_weight + total_weight)
            by (nonlinear_arith);
    }
}

/// Rounding only ever takes away: with a denominator that divides the scale,
/// the shares of a ledger, taken times the denominator, are at most the
/// weighted income, and less than it as soon as the income leaves a
/// remainder on one of the weights.
pub proof fn lemma_shares_rounded_down(ledger: Ledger, income: nat, total_weight: nat)
    requires
        total_weight > 0,
        (REWARD_SCALE as nat) % total_weight == 0,
    ensures
        total_weight * ledger_shares(ledger, acc_per_share(income, total_weight)) <= ledger_weight(
            ledger,
        ) * income,
        !splits_evenly(ledger, income, total_weight) ==> total_weight * ledger_shares(
            ledger,
            acc_per_share(income, total_weight),
        ) < ledger_weight(ledger) * income,
    decreases ledger.len(),
{
    let acc = acc_per_share(income, total_weight);
    if ledger.len() == 0 {
        assert(ledger_weight(ledger) * income == 0) by (nonlinear_arith)
            requires
                ledger_weight(ledger) == 0,
        ;
        assert(total_weight * ledger_shares(ledger, acc) == 0) by (nonlinear_arith)
            requires
                ledger_shares(ledger, acc) == 0,
        ;
    } else {
        let rest = ledger.drop_last();
        let w = ledger.last().1.weight as nat;
        lemma_shares_rounded_down(rest, income, total_weight);
        assert(shares_of(ledger, acc).drop_last() == shares_of(rest, acc));
        assert(weights_of(ledger).drop_last() == weights_of(rest));
        lemma_share_is_proportion(w, income, total_weight);
        let share = lifetime_share(w, acc);
        vstd::arithmetic::div_mod::lemma_fundamental_div_mod(
            (w * income) as int,
            total_weight as int,
        );
        vstd::arithmetic::div_mod::lemma_mod_bound((w * income) as int, total_weight as int);
        assert(total_weight * share + (w * income) % total_weight == w * income);
        assert(total_weight * (ledger_shares(rest, acc) + share) == total_weight * ledger_shares(
            rest,
            acc,
        ) + total_weight * share) by (nonlinear_arith);
        assert((ledger_weight(rest) + w) * income == ledger_weight(rest) * income + w * income)
            by (nonlinear_arith);
        if (w * income) % total_weight == 0 && splits_evenly(rest, income, total_weight) {
            assert forall|i: int| 0 <= i < ledger.len() implies ((
            #[trigger] ledger[i]).1.weight as nat * income) % total_weight == 0 by {
                if i < rest.len() {
                    assert(rest[i] == ledger[i]);
                }
            }
        }
    }
}

} // verus!
