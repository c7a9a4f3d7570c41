//! The data model: accounts, bets, matches, events and errors.

use vstd::prelude::*;

verus! {

/// Opaque, comparable account identifier supplied by the host ledger.
pub type AccountId = u128;

/// Currency unit of the host ledger.
pub type Balance = u128;

/// Host clock unit: a block height.
pub type BlockNumber = u32;

/// Display name of a team, an arbitrary byte string.
pub type TeamName = Vec<u8>;

/// Smallest escrow that may back a newly opened match.
pub const MIN_DEPOSIT: Balance = 1_000_000_000_000;

/// The possible results of a match.
#[derive(Clone, Copy, PartialEq, Eq, Structural, Debug)]
pub enum MatchResult {
    Team1Victory,
    Team2Victory,
    Draw,
}

/// One wager, compared by all three fields.
#[derive(Clone, Copy, PartialEq, Eq, Structural, Debug)]
pub struct Bet {
    /// Account of the bettor.
    pub bettor: AccountId,
    /// Bet amount.
    pub amount: Balance,
    /// Result predicted.
    pub result: MatchResult,
}

/// One betting round, keyed by its creator's account.
pub struct Match {
    /// Starting block of the match.
    pub start: BlockNumber,
    /// Length of the match (start + length = end).
    pub length: BlockNumber,
    /// Team1 name.
    pub team1: TeamName,
    /// Team2 name.
    pub team2: TeamName,
    /// Recorded result, unset until the settlement authority sets it.
    pub result: Option<MatchResult>,
    /// List of bets, in placement order.
    pub bets: Vec<Bet>,
    /// The creator's escrow, returned when the match is closed.
    pub deposit: Balance,
}

/// Mathematical value of a [`Match`].
#[verifier::ext_equal]
pub ghost struct MatchView {
    pub start: BlockNumber,
    pub length: BlockNumber,
    pub team1: Seq<u8>,
    pub team2: Seq<u8>,
    pub result: Option<MatchResult>,
    pub bets: Seq<Bet>,
    pub deposit: Balance,
}

impl View for Match {
    type V = MatchView;

    open spec fn view(&self) -> MatchView {
        MatchView {
            start: self.start,
            length: self.length,
            team1: self.team1@,
            team2: self.team2@,
            result: self.result,
            bets: self.bets@,
            deposit: self.deposit,
        }
    }
}

impl Clone for Match {
    /// A clone carries the same mathematical value.
    fn clone(&self) -> (r: Self)
        ensures
            r@ == self@,
    {
        let r = Match {
            start: self.start,
            length: self.length,
            team1: self.team1.clone(),
            team2: self.team2.clone(),
            result: self.result,
            bets: self.bets.clone(),
            deposit: self.deposit,
        };
        proof {
            assert(r.team1@ =~= self.team1@);
            assert(r.team2@ =~= self.team2@);
            assert(r.bets@ =~= self.bets@);
            assert(r@ =~= self@);
        }
        r
    }
}

/// A new match has been created. [who, team1, team2, start, length]
#[derive(PartialEq, Eq, Debug)]
pub struct MatchCreated {
    pub who: AccountId,
    pub team1: TeamName,
    pub team2: TeamName,
    pub start: BlockNumber,
    pub length: BlockNumber,
}

/// Mathematical value of a [`MatchCreated`] event.
#[verifier::ext_equal]
pub ghost struct MatchCreatedView {
    pub who: AccountId,
    pub team1: Seq<u8>,
    pub team2: Seq<u8>,
    pub start: BlockNumber,
    pub length: BlockNumber,
}

impl View for MatchCreated {
    type V = MatchCreatedView;

    open spec fn view(&self) -> MatchCreatedView {
        MatchCreatedView {
            who: self.who,
            team1: self.team1@,
            team2: self.team2@,
            start: self.start,
            length: self.length,
        }
    }
}

/// A new bet has been placed. [matchId, who, amount, result]
#[derive(Clone, Copy, PartialEq, Eq, Structural, Debug)]
pub struct BetPlaced {
    pub match_id: AccountId,
    pub who: AccountId,
    pub amount: Balance,
    pub result: MatchResult,
}

/// A match result has been set. [matchId, result]
#[derive(Clone, Copy, PartialEq, Eq, Structural, Debug)]
pub struct MatchResultSet {
    pub match_id: AccountId,
    pub result: MatchResult,
}

/// The betting error conditions.
#[derive(Clone, Copy, PartialEq, Eq, Structural, Debug)]
pub enum Error {
    /// The match to be created already exists.
    MatchAlreadyExists,
    /// Each account can only have one match open.
    OriginHasAlreadyOpenMatch,
    /// The time of the match is over.
    TimeMatchOver,
    /// Not enough deposit to create the match.
    NotEnoughDeposit,
    /// The match where the bet is placed does not exist.
    MatchDoesNotExist,
    /// No betting once the match has started.
    MatchHasStarted,
    /// The same bet was already placed in that match.
    AlreadyBet,
    /// Only the settlement authority can make this call.
    BadOrigin,
    /// The result cannot be set while the match is not over.
    TimeMatchNotOver,
    /// The match already has a result set: a result is recorded exactly
    /// once and never overwritten.
    MatchResultAlreadySet,
    /// The match has no result set yet.
    MatchNotResult,
    /// A requested transfer failed in the host ledger.
    TransferFailed,
}

} // verus!
