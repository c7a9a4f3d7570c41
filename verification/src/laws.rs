//! The engine's laws: properties of the lifecycle that hold for every
//! state and every input, stated over the same spec functions that the
//! operations' contracts use.

use vstd::prelude::*;

use crate::engine::bet_error;
use crate::engine::bet_state;
use crate::engine::distribute_error;
use crate::engine::distribute_state;
use crate::engine::open_error;
use crate::engine::open_state;
use crate::engine::set_result_error;
use crate::engine::set_result_state;
use crate::engine::BettingView;
use crate::payout::match_transfers;
use crate::payout::total_amount;
use crate::payout::winner_payouts;
use crate::payout::winning_amount;
use crate::types::AccountId;
use crate::types::Balance;
use crate::types::Bet;
use crate::types::BlockNumber;
use crate::types::Error;
use crate::types::MatchResult;
use crate::types::MIN_DEPOSIT;

verus! {

/// Number of copies of `b` among `bets`.
pub open spec fn bet_count(bets: Seq<Bet>, b: Bet) -> int
    decreases bets.len(),
{
    if bets.len() == 0 {
        0
    } else {
        bet_count(bets.drop_last(), b) + if bets.last() == b {
            1int
        } else {
            0int
        }
    }
}

/// A count of copies is never negative.
pub proof fn lemma_bet_count_nonneg(bets: Seq<Bet>, b: Bet)
    ensures
        bet_count(bets, b) >= 0,
    decreases bets.len(),
{
    if bets.len() > 0 {
        lemma_bet_count_nonneg(bets.drop_last(), b);
    }
}

/// A sequence contains a bet exactly when its count of copies is positive.
pub proof fn lemma_bet_count_contains(bets: Seq<Bet>, b: Bet)
    ensures
        bets.contains(b) <==> bet_count(bets, b) > 0,
    decreases bets.len(),
{
    if bets.len() > 0 {
        lemma_bet_count_contains(bets.drop_last(), b);
        lemma_bet_count_nonneg(bets.drop_last(), b);
        if bets.contains(b) {
            let j = choose|j: int| 0 <= j < bets.len() && bets[j] == b;
            if j < bets.len() - 1 {
                assert(bets.drop_last()[j] == b);
                assert(bets.drop_last().contains(b));
            }
        }
        if bets.drop_last().contains(b) {
            let j = choose|j: int| 0 <= j < bets.drop_last().len() && bets.drop_last()[j] == b;
            assert(bets[j] == b);
        }
    }
}

/// A successful open makes the creator's match exist, and touches no
/// other account's slot.
pub proof fn lemma_open_creates(
    s: BettingView,
    caller: AccountId,
    team1: Seq<u8>,
    team2: Seq<u8>,
    start: BlockNumber,
    length: BlockNumber,
    now: BlockNumber,
    deposit: Balance,
)
    requires
        open_error(s, caller, start, length, now, deposit) is None,
    ensures
        open_state(s, caller, team1, team2, start, length, now, deposit).matches.contains_key(
            caller,
        ),
        forall|a: AccountId|
            a != caller ==> open_state(
                s,
                caller,
                team1,
                team2,
                start,
                length,
                now,
                deposit,
            ).matches.contains_key(a) == s.matches.contains_key(a),
{
}

/// Placing a bet and recording a result never create or remove a match:
/// a match exists afterwards exactly when it existed before.
pub proof fn lemma_store_keys_stable(
    s: BettingView,
    match_id: AccountId,
    result: MatchResult,
    caller: AccountId,
    now: BlockNumber,
    amount: Balance,
    a: AccountId,
)
    ensures
        bet_state(s, match_id, result, caller, now, amount).matches.contains_key(a)
            == s.matches.contains_key(a),
        set_result_state(s, match_id, result, caller, now).matches.contains_key(a)
            == s.matches.contains_key(a),
{
}

/// A successful distribution removes exactly the caller's match.
pub proof fn lemma_distribute_removes(s: BettingView, caller: AccountId)
    requires
        distribute_error(s, caller) is None,
    ensures
        !distribute_state(s, caller).matches.contains_key(caller),
        forall|a: AccountId|
            a != caller ==> distribute_state(s, caller).matches.contains_key(a)
                == s.matches.contains_key(a),
{
}

/// Opening while a match already exists for that account always yields
/// `OriginHasAlreadyOpenMatch` and creates nothing, regardless of the new
/// parameters.
pub proof fn lemma_open_already_open(
    s: BettingView,
    caller: AccountId,
    team1: Seq<u8>,
    team2: Seq<u8>,
    start: BlockNumber,
    length: BlockNumber,
    now: BlockNumber,
    deposit: Balance,
)
    requires
        s.matches.contains_key(caller),
    ensures
        open_error(s, caller, start, length, now, deposit) == Some(
            Error::OriginHasAlreadyOpenMatch,
        ),
        open_state(s, caller, team1, team2, start, length, now, deposit) == s,
{
}

/// Opening with an escrow below the minimum deposit never creates a
/// match, and yields `NotEnoughDeposit` whenever the earlier checks pass.
pub proof fn lemma_open_not_enough_deposit(
    s: BettingView,
    caller: AccountId,
    team1: Seq<u8>,
    team2: Seq<u8>,
    start: BlockNumber,
    length: BlockNumber,
    now: BlockNumber,
    deposit: Balance,
)
    requires
        deposit < MIN_DEPOSIT,
    ensures
        open_state(s, caller, team1, team2, start, length, now, deposit) == s,
        !s.matches.contains_key(caller) && now <= start + length ==> open_error(
            s,
            caller,
            start,
            length,
            now,
            deposit,
        ) == Some(Error::NotEnoughDeposit),
{
}

/// Opening once the window is already over never creates a match, and
/// yields `TimeMatchOver` whenever the creator has no open match.
pub proof fn lemma_open_time_over(
    s: BettingView,
    caller: AccountId,
    team1: Seq<u8>,
    team2: Seq<u8>,
    start: BlockNumber,
    length: BlockNumber,
    now: BlockNumber,
    deposit: Balance,
)
    requires
        now > start + length,
    ensures
        open_state(s, caller, team1, team2, start, length, now, deposit) == s,
        !s.matches.contains_key(caller) ==> open_error(s, caller, start, length, now, deposit)
            == Some(Error::TimeMatchOver),
{
}

/// Placing a bet after the match has started always yields
/// `MatchHasStarted` and leaves the bets unchanged.
pub proof fn lemma_bet_after_start(
    s: BettingView,
    match_id: AccountId,
    result: MatchResult,
    caller: AccountId,
    now: BlockNumber,
    amount: Balance,
)
    requires
        s.matches.contains_key(match_id),
        now > s.matches[match_id].start,
    ensures
        bet_error(s, match_id, result, caller, now, amount) == Some(Error::MatchHasStarted),
        bet_state(s, match_id, result, caller, now, amount) == s,
{
}

/// Placing the identical `(bettor, amount, predicted)` tuple twice
/// succeeds the first time and yields `AlreadyBet` the second time,
/// leaving the state unchanged, with the bets containing exactly one
/// copy of the tuple.
pub proof fn lemma_duplicate_bet(
    s: BettingView,
    match_id: AccountId,
    result: MatchResult,
    caller: AccountId,
    now: BlockNumber,
    amount: Balance,
)
    requires
        bet_error(s, match_id, result, caller, now, amount) is None,
    ensures
        ({
            let b = Bet { bettor: caller, amount, result };
            let s1 = bet_state(s, match_id, result, caller, now, amount);
            &&& bet_error(s1, match_id, result, caller, now, amount) == Some(Error::AlreadyBet)
            &&& bet_state(s1, match_id, result, caller, now, amount) == s1
            &&& bet_count(s1.matches[match_id].bets, b) == 1
        }),
{
    let b = Bet { bettor: caller, amount, result };
    let bets = s.matches[match_id].bets;
    let s1 = bet_state(s, match_id, result, caller, now, amount);
    assert(s1.matches[match_id].bets == bets.push(b));
    assert(bets.push(b)[bets.len() as int] == b);
    assert(bets.push(b).contains(b));
    assert(bets.push(b).drop_last() =~= bets);
    lemma_bet_count_contains(bets, b);
    lemma_bet_count_nonneg(bets, b);
}

/// Recording a result by any caller other than the settlement authority
/// always yields `BadOrigin`; recording before the window is over always
/// yields `TimeMatchNotOver`; recording over an already-set result always
/// yields `MatchResultAlreadySet`; in every such case the state, and so
/// the match's result, is unchanged.
pub proof fn lemma_set_result_guards(
    s: BettingView,
    match_id: AccountId,
    result: MatchResult,
    caller: AccountId,
    now: BlockNumber,
)
    ensures
        caller != s.owner ==> set_result_error(s, match_id, caller, now) == Some(Error::BadOrigin),
        caller == s.owner && s.matches.contains_key(match_id) && now <= s.matches[match_id].start
            + s.matches[match_id].length ==> set_result_error(s, match_id, caller, now) == Some(
            Error::TimeMatchNotOver,
        ),
        caller == s.owner && s.matches.contains_key(match_id) && now > s.matches[match_id].start
            + s.matches[match_id].length && s.matches[match_id].result is Some
            ==> set_result_error(s, match_id, caller, now) == Some(Error::MatchResultAlreadySet),
        set_result_error(s, match_id, caller, now) is Some ==> set_result_state(
            s,
            match_id,
            result,
            caller,
            now,
        ) == s,
{
}

/// A recorded result is set exactly once: while the match stays stored,
/// no operation — opening another match, placing a bet, or a further
/// recording — changes it; only distribution removes the match.
pub proof fn lemma_result_set_once(s: BettingView, k: AccountId, r: MatchResult)
    requires
        s.matches.contains_key(k),
        s.matches[k].result == Some(r),
    ensures
        forall|
            caller: AccountId,
            team1: Seq<u8>,
            team2: Seq<u8>,
            start: BlockNumber,
            length: BlockNumber,
            now: BlockNumber,
            deposit: Balance,
        |
            (#[trigger] open_state(
                s,
                caller,
                team1,
                team2,
                start,
                length,
                now,
                deposit,
            )).matches[k].result == Some(r),
        forall|
            match_id: AccountId,
            result: MatchResult,
            caller: AccountId,
            now: BlockNumber,
            amount: Balance,
        |
            (#[trigger] bet_state(s, match_id, result, caller, now, amount)).matches[k].result
                == Some(r),
        forall|match_id: AccountId, result: MatchResult, caller: AccountId, now: BlockNumber|
            (#[trigger] set_result_state(s, match_id, result, caller, now)).matches[k].result
                == Some(r),
        forall|caller: AccountId|
            (#[trigger] distribute_state(s, caller)).matches.contains_key(k) ==> distribute_state(
                s,
                caller,
            ).matches[k].result == Some(r),
{
    assert forall|
        match_id: AccountId,
        result: MatchResult,
        caller: AccountId,
        now: BlockNumber,
    |
        (#[trigger] set_result_state(s, match_id, result, caller, now)).matches[k].result == Some(
            r,
        ) by {
        if match_id == k {
            // Every path over an already-set result errors out, at the
            // latest on the recorded result itself.
            assert(set_result_error(s, match_id, caller, now) is Some);
        }
    }
}

/// Distributing before the result is set yields `MatchNotResult` and the
/// match remains present, untouched.
pub proof fn lemma_distribute_without_result(s: BettingView, caller: AccountId)
    requires
        s.matches.contains_key(caller),
        s.matches[caller].result is None,
    ensures
        distribute_error(s, caller) == Some(Error::MatchNotResult),
        distribute_state(s, caller) == s,
{
}

/// End-to-end scenario: creator `c` opens a match with deposit `d` and
/// window `[10, 20]`; bettor `b1` wagers `w1` on `Team1Victory` and
/// bettor `b2` wagers `w2` on `Team2Victory`, both before block 10; at
/// block 21 the settlement authority records `Team1Victory`; `c` then
/// distributes. Every step is accepted; the transfers are exactly `b1`'s
/// payout `(w1 / (w1 / 100)) * ((w1 + w2) / 100)` followed by `c`'s
/// deposit refund, `b2` receives nothing, and `c`'s slot is free again.
pub proof fn lemma_single_winner_scenario(
    s0: BettingView,
    c: AccountId,
    d: Balance,
    b1: AccountId,
    w1: Balance,
    b2: AccountId,
    w2: Balance,
    team1: Seq<u8>,
    team2: Seq<u8>,
    t_open: BlockNumber,
    t_bet1: BlockNumber,
    t_bet2: BlockNumber,
)
    requires
        !s0.matches.contains_key(c),
        d >= MIN_DEPOSIT,
        t_open <= 20,
        t_bet1 <= 10,
        t_bet2 <= 10,
        w1 >= 100,
    ensures
        ({
            let s1 = open_state(s0, c, team1, team2, 10, 10, t_open, d);
            let s2 = bet_state(s1, c, MatchResult::Team1Victory, b1, t_bet1, w1);
            let s3 = bet_state(s2, c, MatchResult::Team2Victory, b2, t_bet2, w2);
            let s4 = set_result_state(s3, c, MatchResult::Team1Victory, s0.owner, 21);
            &&& open_error(s0, c, 10, 10, t_open, d) is None
            &&& bet_error(s1, c, MatchResult::Team1Victory, b1, t_bet1, w1) is None
            &&& bet_error(s2, c, MatchResult::Team2Victory, b2, t_bet2, w2) is None
            &&& set_result_error(s3, c, s0.owner, 21) is None
            &&& distribute_error(s4, c) is None
            &&& match_transfers(s4.matches[c], c) == seq![
                (b1, w1 as int / (w1 as int / 100) * ((w1 + w2) / 100)),
                (c, d as int),
            ]
            &&& !distribute_state(s4, c).matches.contains_key(c)
        }),
{
    let s1 = open_state(s0, c, team1, team2, 10, 10, t_open, d);
    let s2 = bet_state(s1, c, MatchResult::Team1Victory, b1, t_bet1, w1);
    let s3 = bet_state(s2, c, MatchResult::Team2Victory, b2, t_bet2, w2);
    let s4 = set_result_state(s3, c, MatchResult::Team1Victory, s0.owner, 21);
    let bet1b = Bet { bettor: b1, amount: w1, result: MatchResult::Team1Victory };
    let bet2b = Bet { bettor: b2, amount: w2, result: MatchResult::Team2Victory };
    let bets0 = Seq::<Bet>::empty();
    let bets1 = bets0.push(bet1b);
    let bets2 = bets1.push(bet2b);
    assert(s1.matches[c].bets == bets0);
    assert(s2.matches[c].bets == bets1);
    assert(bets1[0] == bet1b);
    assert(!bets1.contains(bet2b));
    assert(s3.matches[c].bets == bets2);
    assert(s4.matches[c].bets == bets2);
    assert(s4.matches[c].result == Some(MatchResult::Team1Victory));
    assert(bets2.drop_last() =~= bets1);
    assert(bets1.drop_last() =~= bets0);
    assert(total_amount(bets0) == 0);
    assert(total_amount(bets1) == w1);
    assert(total_amount(bets2) == w1 + w2);
    assert(winning_amount(bets0, MatchResult::Team1Victory) == 0);
    assert(winning_amount(bets1, MatchResult::Team1Victory) == w1);
    assert(winning_amount(bets2, MatchResult::Team1Victory) == w1);
    let unit = w1 as int / 100;
    let pool_unit = (w1 + w2) / 100;
    assert(unit >= 1) by {
        vstd::arithmetic::div_mod::lemma_div_is_ordered(100, w1 as int, 100);
        assert(100int / 100 == 1);
    }
    assert(winner_payouts(bets0, MatchResult::Team1Victory, unit, pool_unit) =~= Seq::empty());
    assert(winner_payouts(bets1, MatchResult::Team1Victory, unit, pool_unit) =~= seq![
        (b1, w1 as int / unit * pool_unit),
    ]);
    assert(winner_payouts(bets2, MatchResult::Team1Victory, unit, pool_unit) =~= seq![
        (b1, w1 as int / unit * pool_unit),
    ]);
    assert(match_transfers(s4.matches[c], c) =~= seq![
        (b1, w1 as int / (w1 as int / 100) * ((w1 + w2) / 100)),
        (c, d as int),
    ]);
}

/// When the amounts are whole multiples of 100, the payout formula of a
/// single winner reduces to the entire pool: the winner receives exactly
/// `w1 + w2`.
pub proof fn lemma_single_winner_takes_pool(w1: Balance, w2: Balance)
    requires
        w1 >= 100,
        w1 % 100 == 0,
        w2 % 100 == 0,
    ensures
        w1 as int / (w1 as int / 100) * ((w1 + w2) / 100) == w1 + w2,
{
    let k = w1 as int / 100;
    assert(w1 == 100 * k) by {
        vstd::arithmetic::div_mod::lemma_fundamental_div_mod(w1 as int, 100);
    }
    assert(k >= 1);
    assert(w1 as int / k == 100) by {
        vstd::arithmetic::div_mod::lemma_div_multiples_vanish(100, k);
        assert(k * 100 == 100 * k) by (nonlinear_arith);
    }
    let m = (w1 + w2) / 100;
    assert(w1 + w2 == 100 * m) by {
        vstd::arithmetic::div_mod::lemma_fundamental_div_mod(w1 as int + w2 as int, 100);
        assert((w1 + w2) % 100 == 0) by {
            vstd::arithmetic::div_mod::lemma_add_mod_noop(w1 as int, w2 as int, 100);
        }
    }
    assert(100 * m == m * 100) by (nonlinear_arith);
}

} // verus!
