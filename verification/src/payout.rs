//! The winnings-distribution arithmetic.
//!
//! At distribution time the pool (the sum of all wagered amounts) is split
//! among the bets that predicted the recorded result. A winning stake's
//! payout is the stake divided by the winning total expressed in percent,
//! then multiplied by the pool expressed in percent, truncating at each
//! step, in that order. When the winning total is below one percent unit
//! the division is undefined; the engine's policy is to skip the winner
//! payouts in that case and only refund the deposit.

use vstd::prelude::*;

use crate::types::AccountId;
use crate::types::Balance;
use crate::types::Bet;
use crate::types::MatchResult;
use crate::types::MatchView;

verus! {

/// Sum of all wagered amounts: the pool.
pub open spec fn total_amount(bets: Seq<Bet>) -> int
    decreases bets.len(),
{
    if bets.len() == 0 {
        0
    } else {
        total_amount(bets.drop_last()) + bets.last().amount
    }
}

/// Sum of the amounts wagered on `outcome`.
pub open spec fn winning_amount(bets: Seq<Bet>, outcome: MatchResult) -> int
    decreases bets.len(),
{
    if bets.len() == 0 {
        0
    } else {
        winning_amount(bets.drop_last(), outcome) + if bets.last().result == outcome {
            bets.last().amount as int
        } else {
            0
        }
    }
}

/// The payout owed to a winning stake of `amount`, where `unit` is the
/// winning total divided by 100 and `pool_unit` the pool divided by 100:
/// divide first, then multiply, truncating at each step.
pub open spec fn payout_of(amount: Balance, unit: int, pool_unit: int) -> int {
    amount as int / unit * pool_unit
}

/// The winner transfers, in bet order: each bet on `outcome` yields
/// its payout to its bettor.
pub open spec fn winner_payouts(
    bets: Seq<Bet>,
    outcome: MatchResult,
    unit: int,
    pool_unit: int,
) -> Seq<(AccountId, int)>
    decreases bets.len(),
{
    if bets.len() == 0 {
        Seq::empty()
    } else {
        let rest = winner_payouts(bets.drop_last(), outcome, unit, pool_unit);
        if bets.last().result == outcome {
            rest.push((bets.last().bettor, payout_of(bets.last().amount, unit, pool_unit)))
        } else {
            rest
        }
    }
}

/// The full transfer list of a distribution: the winner payouts when the
/// winning total reaches one percent unit, then the deposit refund to the
/// creator.
pub open spec fn match_transfers(m: MatchView, creator: AccountId) -> Seq<(AccountId, int)> {
    match m.result {
        Some(outcome) => {
            let unit = winning_amount(m.bets, outcome) / 100;
            let pool_unit = total_amount(m.bets) / 100;
            if unit > 0 {
                winner_payouts(m.bets, outcome, unit, pool_unit).push((creator, m.deposit as int))
            } else {
                seq![(creator, m.deposit as int)]
            }
        },
        None => Seq::empty(),
    }
}

/// The mathematical value of an executable transfer list.
pub open spec fn transfers_view(ts: Seq<(AccountId, Balance)>) -> Seq<(AccountId, int)> {
    ts.map_values(|t: (AccountId, Balance)| (t.0, t.1 as int))
}

/// Whether the payout arithmetic of a settled match stays within `Balance`:
/// the pool fits, and so does each winner's payout.
pub open spec fn payouts_fit(m: MatchView) -> bool {
    &&& total_amount(m.bets) <= Balance::MAX as int
    &&& match m.result {
        Some(outcome) => {
            let unit = winning_amount(m.bets, outcome) / 100;
            let pool_unit = total_amount(m.bets) / 100;
            unit > 0 ==> forall|i: int|
                0 <= i < m.bets.len() && (#[trigger] m.bets[i]).result == outcome
                    ==> payout_of(m.bets[i].amount, unit, pool_unit) <= Balance::MAX as int
        },
        None => true,
    }
}

/// The pool is a sum of nonnegative amounts.
pub proof fn lemma_total_nonneg(bets: Seq<Bet>)
    ensures
        total_amount(bets) >= 0,
    decreases bets.len(),
{
    if bets.len() > 0 {
        lemma_total_nonneg(bets.drop_last());
    }
}

/// The winning total is a sum of nonnegative amounts.
pub proof fn lemma_winning_nonneg(bets: Seq<Bet>, outcome: MatchResult)
    ensures
        winning_amount(bets, outcome) >= 0,
    decreases bets.len(),
{
    if bets.len() > 0 {
        lemma_winning_nonneg(bets.drop_last(), outcome);
    }
}

/// The winning total never exceeds the pool.
pub proof fn lemma_winning_le_total(bets: Seq<Bet>, outcome: MatchResult)
    ensures
        winning_amount(bets, outcome) <= total_amount(bets),
    decreases bets.len(),
{
    if bets.len() > 0 {
        lemma_winning_le_total(bets.drop_last(), outcome);
    }
}

/// A prefix of the bets sums to no more than the whole.
pub proof fn lemma_total_prefix(bets: Seq<Bet>, i: int)
    requires
        0 <= i <= bets.len(),
    ensures
        total_amount(bets.take(i)) <= total_amount(bets),
    decreases bets.len() - i,
{
    if i < bets.len() {
        lemma_total_prefix(bets, i + 1);
        assert(bets.take(i + 1).drop_last() =~= bets.take(i));
        assert(bets.take(i + 1).last() == bets[i]);
    } else {
        assert(bets.take(i) =~= bets);
    }
}

} // verus!
