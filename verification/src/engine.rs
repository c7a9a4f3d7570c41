//! The match lifecycle engine.
//!
//! A [`Betting`] value holds the keyed store of open matches and the
//! settlement authority. Each operation receives the calling account, the
//! current block number and the transferred value from the host, validates
//! its preconditions in order (first failure wins), applies at most one
//! store write, and returns the event record or the transfer list that the
//! host is to carry out. The spec functions `open_error` / `open_state`
//! and their siblings state each operation's outcome over the
//! mathematical state, and every operation's contract ties it to them.

use std::collections::HashMap;
use vstd::prelude::*;

use crate::payout::match_transfers;
use crate::payout::payout_of;
use crate::payout::payouts_fit;
use crate::payout::total_amount;
use crate::payout::transfers_view;
use crate::payout::winner_payouts;
use crate::payout::winning_amount;
use crate::payout::lemma_total_nonneg;
use crate::payout::lemma_total_prefix;
use crate::payout::lemma_winning_le_total;
use crate::payout::lemma_winning_nonneg;
use crate::types::AccountId;
use crate::types::Balance;
use crate::types::Bet;
use crate::types::BetPlaced;
use crate::types::BlockNumber;
use crate::types::Error;
use crate::types::Match;
use crate::types::MatchCreated;
use crate::types::MatchCreatedView;
use crate::types::MatchResult;
use crate::types::MatchResultSet;
use crate::types::MatchView;
use crate::types::TeamName;
use crate::types::MIN_DEPOSIT;

verus! {

broadcast use vstd::std_specs::hash::group_hash_axioms;

/// Mathematical state of the engine: the open matches by creator account,
/// and the settlement authority.
#[verifier::ext_equal]
pub ghost struct BettingView {
    pub matches: Map<AccountId, MatchView>,
    pub owner: AccountId,
}

/// The match store and the settlement authority.
pub struct Betting {
    /// Open matches, keyed by their creator's account.
    matches: HashMap<AccountId, Match>,
    /// The settlement authority, fixed at construction.
    owner: AccountId,
}

/// The store's contents, as a map of mathematical match values.
pub open spec fn views_of(m: Map<AccountId, Match>) -> Map<AccountId, MatchView> {
    Map::new(|k: AccountId| m.contains_key(k), |k: AccountId| m[k]@)
}

impl View for Betting {
    type V = BettingView;

    closed spec fn view(&self) -> BettingView {
        BettingView { matches: views_of(self.matches@), owner: self.owner }
    }
}

/// The error that opening a match yields, if any: the creator must have no
/// open match, the window must not be over, and the escrow must reach the
/// minimum deposit, checked in that order.
pub open spec fn open_error(
    s: BettingView,
    caller: AccountId,
    start: BlockNumber,
    length: BlockNumber,
    now: BlockNumber,
    deposit: Balance,
) -> Option<Error> {
    if s.matches.contains_key(caller) {
        Some(Error::OriginHasAlreadyOpenMatch)
    } else if now > start + length {
        Some(Error::TimeMatchOver)
    } else if deposit < MIN_DEPOSIT {
        Some(Error::NotEnoughDeposit)
    } else {
        None
    }
}

/// The match record that a successful open stores.
pub open spec fn fresh_match(
    team1: Seq<u8>,
    team2: Seq<u8>,
    start: BlockNumber,
    length: BlockNumber,
    deposit: Balance,
) -> MatchView {
    MatchView {
        start,
        length,
        team1,
        team2,
        result: None,
        bets: Seq::empty(),
        deposit,
    }
}

/// The state after opening a match: unchanged on error, else the fresh
/// record stored under the creator's account.
pub open spec fn open_state(
    s: BettingView,
    caller: AccountId,
    team1: Seq<u8>,
    team2: Seq<u8>,
    start: BlockNumber,
    length: BlockNumber,
    now: BlockNumber,
    deposit: Balance,
) -> BettingView {
    if open_error(s, caller, start, length, now, deposit) is None {
        BettingView {
            matches: s.matches.insert(caller, fresh_match(team1, team2, start, length, deposit)),
            ..s
        }
    } else {
        s
    }
}

/// The error that placing a bet yields, if any: the match must exist, it
/// must not have started, and the same bet must not already be placed,
/// checked in that order.
pub open spec fn bet_error(
    s: BettingView,
    match_id: AccountId,
    result: MatchResult,
    caller: AccountId,
    now: BlockNumber,
    amount: Balance,
) -> Option<Error> {
    if !s.matches.contains_key(match_id) {
        Some(Error::MatchDoesNotExist)
    } else if now > s.matches[match_id].start {
        Some(Error::MatchHasStarted)
    } else if s.matches[match_id].bets.contains(
        Bet { bettor: caller, amount, result },
    ) {
        Some(Error::AlreadyBet)
    } else {
        None
    }
}

/// The state after placing a bet: unchanged on error, else the bet
/// appended to the match's list.
pub open spec fn bet_state(
    s: BettingView,
    match_id: AccountId,
    result: MatchResult,
    caller: AccountId,
    now: BlockNumber,
    amount: Balance,
) -> BettingView {
    if bet_error(s, match_id, result, caller, now, amount) is None {
        let m = s.matches[match_id];
        let updated = MatchView {
            bets: m.bets.push(Bet { bettor: caller, amount, result }),
            ..m
        };
        BettingView { matches: s.matches.insert(match_id, updated), ..s }
    } else {
        s
    }
}

/// The error that recording a result yields, if any: only the settlement
/// authority may record, the match must exist, its window must be over,
/// and its result must not be set yet, checked in that order. The last
/// check makes the result immutable: it is recorded exactly once and
/// stays until distribution removes the match.
pub open spec fn set_result_error(
    s: BettingView,
    match_id: AccountId,
    caller: AccountId,
    now: BlockNumber,
) -> Option<Error> {
    if caller != s.owner {
        Some(Error::BadOrigin)
    } else if !s.matches.contains_key(match_id) {
        Some(Error::MatchDoesNotExist)
    } else if now <= s.matches[match_id].start + s.matches[match_id].length {
        Some(Error::TimeMatchNotOver)
    } else if s.matches[match_id].result is Some {
        Some(Error::MatchResultAlreadySet)
    } else {
        None
    }
}

/// The state after recording a result: unchanged on error, else the
/// match's result set to `result`.
pub open spec fn set_result_state(
    s: BettingView,
    match_id: AccountId,
    result: MatchResult,
    caller: AccountId,
    now: BlockNumber,
) -> BettingView {
    if set_result_error(s, match_id, caller, now) is None {
        let m = s.matches[match_id];
        let updated = MatchView { result: Some(result), ..m };
        BettingView { matches: s.matches.insert(match_id, updated), ..s }
    } else {
        s
    }
}

/// The error that a distribution yields, if any: the caller must have an
/// open match and its result must be set, checked in that order.
pub open spec fn distribute_error(s: BettingView, caller: AccountId) -> Option<Error> {
    if !s.matches.contains_key(caller) {
        Some(Error::MatchDoesNotExist)
    } else if s.matches[caller].result is None {
        Some(Error::MatchNotResult)
    } else {
        None
    }
}

/// The state after a distribution: unchanged on error, else the caller's
/// match removed from the store.
pub open spec fn distribute_state(s: BettingView, caller: AccountId) -> BettingView {
    if distribute_error(s, caller) is None {
        BettingView { matches: s.matches.remove(caller), ..s }
    } else {
        s
    }
}

/// Whether `b` is already among `bets`.
fn contains_bet(bets: &Vec<Bet>, b: &Bet) -> (r: bool)
    ensures
        r == bets@.contains(*b),
{
    let mut i: usize = 0;
    while i < bets.len()
        invariant
            i <= bets.len(),
            forall|j: int| 0 <= j < i ==> bets@[j] != *b,
        decreases bets.len() - i,
    {
        if bets[i] == *b {
            assert(bets@[i as int] == *b);
            return true;
        }
        i += 1;
    }
    false
}

impl Betting {
    /// Creates an engine with an empty store; `owner`, the constructing
    /// caller, becomes the settlement authority.
    pub fn new(owner: AccountId) -> (r: Betting)
        ensures
            r@.owner == owner,
            r@.matches == Map::<AccountId, MatchView>::empty(),
    {
        let r = Betting { matches: HashMap::new(), owner };
        proof {
            assert(views_of(r.matches@) =~= Map::<AccountId, MatchView>::empty());
        }
        r
    }

    /// Simply checks if a match exists.
    pub fn exists_match(&self, owner: AccountId) -> (r: bool)
        ensures
            r == self@.matches.contains_key(owner),
    {
        self.matches.contains_key(&owner)
    }

    /// Returns a copy of the match opened by `owner`, if any.
    pub fn get_match(&self, owner: AccountId) -> (r: Option<Match>)
        ensures
            match r {
                Some(m) => self@.matches.contains_key(owner) && m@ == self@.matches[owner],
                None => !self@.matches.contains_key(owner),
            },
    {
        match self.matches.get(&owner) {
            Some(m) => Some(m.clone()),
            None => None,
        }
    }

    /// Opens a match: `caller` escrows `deposit` and names the two teams
    /// and the window `[start, start + length]`; `now` is the current
    /// block. On success the match is stored under `caller` and the
    /// creation event is returned for the host to emit.
    pub fn create_match_to_bet(
        &mut self,
        team1: TeamName,
        team2: TeamName,
        start: BlockNumber,
        length: BlockNumber,
        caller: AccountId,
        now: BlockNumber,
        deposit: Balance,
    ) -> (r: Result<MatchCreated, Error>)
        ensures
            final(self)@ == open_state(
                old(self)@,
                caller,
                team1@,
                team2@,
                start,
                length,
                now,
                deposit,
            ),
            match r {
                Ok(ev) => open_error(old(self)@, caller, start, length, now, deposit) is None
                    && ev@ == (MatchCreatedView {
                    who: caller,
                    team1: team1@,
                    team2: team2@,
                    start,
                    length,
                }),
                Err(e) => open_error(old(self)@, caller, start, length, now, deposit) == Some(e),
            },
    {
        // Check account has no open match.
        if self.matches.contains_key(&caller) {
            return Err(Error::OriginHasAlreadyOpenMatch);
        }
        // Check that the window is not already over.
        if (now as u64) > (start as u64) + (length as u64) {
            return Err(Error::TimeMatchOver);
        }
        // Check the deposit.
        if deposit < MIN_DEPOSIT {
            return Err(Error::NotEnoughDeposit);
        }
        // Create and store the betting match.
        let betting_match = Match {
            start,
            length,
            team1: team1.clone(),
            team2: team2.clone(),
            result: None,
            bets: Vec::new(),
            deposit,
        };
        self.matches.insert(caller, betting_match);
        proof {
            assert(self@.matches =~= old(self)@.matches.insert(
                caller,
                fresh_match(team1@, team2@, start, length, deposit),
            ));
            assert(self@ =~= open_state(
                old(self)@,
                caller,
                team1@,
                team2@,
                start,
                length,
                now,
                deposit,
            ));
        }
        Ok(MatchCreated { who: caller, team1, team2, start, length })
    }

    /// Places the bet `(caller, amount, result)` on the match opened by
    /// `match_id`; `now` is the current block and `amount` the transferred
    /// value. On success the bet is appended and the placement event is
    /// returned for the host to emit.
    pub fn bet(
        &mut self,
        match_id: AccountId,
        result: MatchResult,
        caller: AccountId,
        now: BlockNumber,
        amount: Balance,
    ) -> (r: Result<BetPlaced, Error>)
        ensures
            final(self)@ == bet_state(old(self)@, match_id, result, caller, now, amount),
            match r {
                Ok(ev) => bet_error(old(self)@, match_id, result, caller, now, amount) is None
                    && ev == (BetPlaced { match_id, who: caller, amount, result }),
                Err(e) => bet_error(old(self)@, match_id, result, caller, now, amount) == Some(e),
            },
    {
        let bet = Bet { bettor: caller, amount, result };
        // Find the match where the bet is to be placed and validate
        // every precondition before any write.
        match self.matches.get(&match_id) {
            None => {
                return Err(Error::MatchDoesNotExist);
            },
            Some(match_to_bet) => {
                // No betting once the match has started.
                if now > match_to_bet.start {
                    return Err(Error::MatchHasStarted);
                }
                // Check if the bet already exists.
                if contains_bet(&match_to_bet.bets, &bet) {
                    return Err(Error::AlreadyBet);
                }
            },
        }
        // Append the bet and store the match back.
        let mut match_to_bet = self.matches.remove(&match_id).unwrap();
        match_to_bet.bets.push(bet);
        self.matches.insert(match_id, match_to_bet);
        proof {
            let m = old(self)@.matches[match_id];
            let updated = MatchView { bets: m.bets.push(bet), ..m };
            assert(self@.matches =~= old(self)@.matches.insert(match_id, updated));
            assert(self@ =~= bet_state(old(self)@, match_id, result, caller, now, amount));
        }
        Ok(BetPlaced { match_id, who: caller, amount, result })
    }

    /// Sets the result of an existing match once its window is over.
    /// The caller must be the settlement authority; `now` is the current
    /// block. A result is recorded exactly once: a further call yields
    /// `MatchResultAlreadySet` and leaves the recorded result untouched.
    /// On success the event is returned for the host to emit.
    pub fn set_result(
        &mut self,
        match_id: AccountId,
        result: MatchResult,
        caller: AccountId,
        now: BlockNumber,
    ) -> (r: Result<MatchResultSet, Error>)
        ensures
            final(self)@ == set_result_state(old(self)@, match_id, result, caller, now),
            match r {
                Ok(ev) => set_result_error(old(self)@, match_id, caller, now) is None
                    && ev == (MatchResultSet { match_id, result }),
                Err(e) => set_result_error(old(self)@, match_id, caller, now) == Some(e),
            },
    {
        // Only the settlement authority can record a result.
        if caller != self.owner {
            return Err(Error::BadOrigin);
        }
        // Find the match whose result is to be recorded and validate
        // every precondition before any write.
        match self.matches.get(&match_id) {
            None => {
                return Err(Error::MatchDoesNotExist);
            },
            Some(match_to_set) => {
                // The window must be over.
                if (now as u64) <= (match_to_set.start as u64) + (match_to_set.length as u64) {
                    return Err(Error::TimeMatchNotOver);
                }
                // A recorded result is never overwritten.
                if match_to_set.result.is_some() {
                    return Err(Error::MatchResultAlreadySet);
                }
            },
        }
        // Record the result and store the match back.
        let mut match_to_set = self.matches.remove(&match_id).unwrap();
        match_to_set.result = Some(result);
        self.matches.insert(match_id, match_to_set);
        proof {
            let m = old(self)@.matches[match_id];
            let updated = MatchView { result: Some(result), ..m };
            assert(self@.matches =~= old(self)@.matches.insert(match_id, updated));
            assert(self@ =~= set_result_state(old(self)@, match_id, result, caller, now));
        }
        Ok(MatchResultSet { match_id, result })
    }

    /// Checks that the payout arithmetic of the caller's match stays
    /// within `Balance`, which [`Betting::distribute_winnings`] requires;
    /// true as well when there is nothing to distribute.
    pub fn payouts_in_range(&self, caller: AccountId) -> (r: bool)
        ensures
            r == (distribute_error(self@, caller) is None ==> payouts_fit(self@.matches[caller])),
    {
        let betting_match = match self.matches.get(&caller) {
            None => {
                return true;
            },
            Some(m) => m,
        };
        let outcome = match betting_match.result {
            None => {
                return true;
            },
            Some(o) => o,
        };
        let ghost m_view = self@.matches[caller];
        let ghost bets = betting_match.bets@;
        // Add up the pool and the winning total, watching for overflow.
        let n = betting_match.bets.len();
        let mut total_winners: Balance = 0;
        let mut total_bet: Balance = 0;
        let mut i: usize = 0;
        while i < n
            invariant
                i <= n,
                n == bets.len(),
                bets == betting_match.bets@,
                distribute_error(self@, caller) is None,
                m_view == self@.matches[caller],
                m_view.bets == bets,
                m_view.result == Some(outcome),
                total_bet as int == total_amount(bets.take(i as int)),
                total_winners as int == winning_amount(bets.take(i as int), outcome),
            decreases n - i,
        {
            let b = betting_match.bets[i];
            proof {
                assert(bets.take(i + 1).drop_last() =~= bets.take(i as int));
                assert(bets.take(i + 1).last() == bets[i as int]);
                lemma_winning_le_total(bets.take(i + 1), outcome);
                lemma_winning_nonneg(bets.take(i as int), outcome);
                lemma_total_nonneg(bets.take(i as int));
                lemma_total_prefix(bets, i + 1);
            }
            total_bet = match total_bet.checked_add(b.amount) {
                Some(t) => t,
                None => {
                    // The pool itself overflows, so the arithmetic cannot fit.
                    proof {
                        assert(total_amount(bets) > Balance::MAX as int);
                        assert(!payouts_fit(m_view));
                    }
                    return false;
                },
            };
            if b.result == outcome {
                total_winners = total_winners + b.amount;
            }
            i += 1;
        }
        proof {
            assert(bets.take(n as int) =~= bets);
        }
        // Check each winner's payout, skipped when the winning total is
        // below one percent unit.
        let unit = total_winners / 100;
        let pool_unit = total_bet / 100;
        if unit == 0 {
            return true;
        }
        let mut i: usize = 0;
        while i < n
            invariant
                i <= n,
                n == bets.len(),
                bets == betting_match.bets@,
                distribute_error(self@, caller) is None,
                m_view == self@.matches[caller],
                m_view.bets == bets,
                m_view.result == Some(outcome),
                total_amount(bets) <= Balance::MAX as int,
                unit as int == winning_amount(bets, outcome) / 100,
                pool_unit as int == total_amount(bets) / 100,
                unit > 0,
                forall|j: int|
                    0 <= j < i && (#[trigger] bets[j]).result == outcome ==> payout_of(
                        bets[j].amount,
                        unit as int,
                        pool_unit as int,
                    ) <= Balance::MAX as int,
            decreases n - i,
        {
            let b = betting_match.bets[i];
            if b.result == outcome {
                let weighted = b.amount / unit;
                if weighted.checked_mul(pool_unit).is_none() {
                    // This winner's payout overflows.
                    proof {
                        assert(bets[i as int].result == outcome);
                        assert(payout_of(bets[i as int].amount, unit as int, pool_unit as int)
                            > Balance::MAX as int);
                        assert(!payouts_fit(m_view));
                    }
                    return false;
                }
            }
            i += 1;
        }
        true
    }

    /// Closes the caller's own match once its result is set: removes it
    /// from the store and returns the transfers the host is to carry out,
    /// the winner payouts in bet order followed by the deposit refund to
    /// the caller. When the winning total is below one percent unit the
    /// winner payouts are skipped and only the deposit is refunded.
    ///
    /// The caller must ensure the payout arithmetic fits in `Balance`;
    /// [`Betting::payouts_in_range`] checks exactly that.
    pub fn distribute_winnings(&mut self, caller: AccountId) -> (r: Result<
        Vec<(AccountId, Balance)>,
        Error,
    >)
        requires
            distribute_error(old(self)@, caller) is None ==> payouts_fit(
                old(self)@.matches[caller],
            ),
        ensures
            final(self)@ == distribute_state(old(self)@, caller),
            match r {
                Ok(transfers) => distribute_error(old(self)@, caller) is None
                    && transfers_view(transfers@) == match_transfers(
                    old(self)@.matches[caller],
                    caller,
                ),
                Err(e) => distribute_error(old(self)@, caller) == Some(e),
            },
    {
        // Find the match that the caller wants to close and validate
        // every precondition before any write.
        let match_to_delete = match self.matches.get(&caller) {
            None => {
                return Err(Error::MatchDoesNotExist);
            },
            Some(m) => m,
        };
        // Make sure the match has a result set already.
        let outcome = match match_to_delete.result {
            None => {
                return Err(Error::MatchNotResult);
            },
            Some(o) => o,
        };
        let ghost m_view = old(self)@.matches[caller];
        let ghost bets = match_to_delete.bets@;
        // Iterate over all bets to add up the pool and the winning total.
        let n = match_to_delete.bets.len();
        let mut total_winners: Balance = 0;
        let mut total_bet: Balance = 0;
        let mut i: usize = 0;
        while i < n
            invariant
                i <= n,
                n == bets.len(),
                bets == match_to_delete.bets@,
                m_view.bets == bets,
                total_amount(bets) <= Balance::MAX as int,
                total_bet as int == total_amount(bets.take(i as int)),
                total_winners as int == winning_amount(bets.take(i as int), outcome),
            decreases n - i,
        {
            let b = match_to_delete.bets[i];
            proof {
                assert(bets.take(i + 1).drop_last() =~= bets.take(i as int));
                assert(bets.take(i + 1).last() == bets[i as int]);
                lemma_total_prefix(bets, i + 1);
                lemma_winning_le_total(bets.take(i + 1), outcome);
                lemma_winning_nonneg(bets.take(i as int), outcome);
                lemma_total_nonneg(bets.take(i as int));
            }
            total_bet = total_bet + b.amount;
            if b.result == outcome {
                total_winners = total_winners + b.amount;
            }
            i += 1;
        }
        proof {
            assert(bets.take(n as int) =~= bets);
        }
        // Compute the winner payouts, skipped when the winning total is
        // below one percent unit.
        let mut transfers: Vec<(AccountId, Balance)> = Vec::new();
        let unit = total_winners / 100;
        let pool_unit = total_bet / 100;
        if unit > 0 {
            let mut i: usize = 0;
            while i < n
                invariant
                    i <= n,
                    n == bets.len(),
                    bets == match_to_delete.bets@,
                    m_view.bets == bets,
                    m_view.result == Some(outcome),
                    payouts_fit(m_view),
                    unit as int == winning_amount(bets, outcome) / 100,
                    pool_unit as int == total_amount(bets) / 100,
                    unit > 0,
                    transfers_view(transfers@) == winner_payouts(
                        bets.take(i as int),
                        outcome,
                        unit as int,
                        pool_unit as int,
                    ),
                decreases n - i,
            {
                let b = match_to_delete.bets[i];
                proof {
                    assert(bets.take(i + 1).drop_last() =~= bets.take(i as int));
                    assert(bets.take(i + 1).last() == bets[i as int]);
                }
                if b.result == outcome {
                    proof {
                        assert(payout_of(b.amount, unit as int, pool_unit as int) <= Balance::MAX
                            as int) by {
                            assert(m_view.bets[i as int].result == outcome);
                        }
                        lemma_total_nonneg(bets);
                        lemma_winning_nonneg(bets, outcome);
                    }
                    let weighted = b.amount / unit;
                    let amount_won = weighted * pool_unit;
                    transfers.push((b.bettor, amount_won));
                }
                proof {
                    assert(transfers_view(transfers@) =~= winner_payouts(
                        bets.take(i + 1),
                        outcome,
                        unit as int,
                        pool_unit as int,
                    ));
                }
                i += 1;
            }
            proof {
                assert(bets.take(n as int) =~= bets);
            }
        }
        // Delete the match and refund the deposit to the caller.
        let deposit = match_to_delete.deposit;
        let _removed = self.matches.remove(&caller);
        transfers.push((caller, deposit));
        proof {
            assert(self@.matches =~= old(self)@.matches.remove(caller));
            assert(self@ =~= distribute_state(old(self)@, caller));
            assert(transfers_view(transfers@) =~= match_transfers(m_view, caller));
        }
        Ok(transfers)
    }
}

} // verus!
