//! Tests of the match lifecycle: opening, betting, recording the result.

use betting::engine::Betting;
use betting::types::AccountId;
use betting::types::Balance;
use betting::types::Bet;
use betting::types::BetPlaced;
use betting::types::BlockNumber;
use betting::types::Error;
use betting::types::MatchCreated;
use betting::types::MatchResult;
use betting::types::MatchResultSet;

const ALICE: AccountId = 1;
const BOB: AccountId = 2;
const DJANGO: AccountId = 4;

fn create_contract(owner: AccountId) -> Betting {
    Betting::new(owner)
}

fn create_match(
    betting: &mut Betting,
    who: AccountId,
    t1: &str,
    t2: &str,
    start: BlockNumber,
    length: BlockNumber,
    now: BlockNumber,
    deposit: Balance,
) -> AccountId {
    assert_eq!(
        betting.create_match_to_bet(
            t1.as_bytes().to_vec(),
            t2.as_bytes().to_vec(),
            start,
            length,
            who,
            now,
            deposit,
        ),
        Ok(MatchCreated {
            who,
            team1: t1.as_bytes().to_vec(),
            team2: t2.as_bytes().to_vec(),
            start,
            length,
        })
    );
    who
}

#[test]
fn constructor_works() {
    let betting = create_contract(ALICE);
    assert_eq!(betting.exists_match(ALICE), false);
}

#[test]
fn create_match_to_bet_works() {
    let mut betting = create_contract(ALICE);

    assert_eq!(betting.exists_match(ALICE), false);

    let match_id = create_match(&mut betting, ALICE, "team1", "team2", 10, 10, 0, 1000000000000);

    assert_eq!(betting.exists_match(match_id), true);
}

#[test]
fn not_enough_deposit_when_create_match_to_bet() {
    let mut betting = create_contract(ALICE);

    assert_eq!(betting.exists_match(ALICE), false);

    assert_eq!(
        betting.create_match_to_bet(
            "team1".as_bytes().to_vec(),
            "team2".as_bytes().to_vec(),
            10,
            10,
            ALICE,
            0,
            1,
        ),
        Err(Error::NotEnoughDeposit)
    );
    assert_eq!(betting.exists_match(ALICE), false);
}

#[test]
fn match_exist_when_create_match_to_bet() {
    let mut betting = create_contract(ALICE);

    assert_eq!(betting.exists_match(ALICE), false);

    create_match(&mut betting, ALICE, "team1", "team2", 10, 10, 0, 1000000000000);

    assert_eq!(betting.exists_match(ALICE), true);

    // Try to add it again.
    assert_eq!(
        betting.create_match_to_bet(
            "team1".as_bytes().to_vec(),
            "team2".as_bytes().to_vec(),
            10,
            10,
            ALICE,
            0,
            1000000000000,
        ),
        Err(Error::OriginHasAlreadyOpenMatch)
    );
}

#[test]
fn error_creating_a_match_with_an_open_match() {
    let mut betting = create_contract(ALICE);

    assert_eq!(betting.exists_match(ALICE), false);

    // At block 3 a window ending at block 2 is already over.
    assert_eq!(
        betting.create_match_to_bet(
            "team1".as_bytes().to_vec(),
            "team2".as_bytes().to_vec(),
            1,
            1,
            ALICE,
            3,
            1000000000000,
        ),
        Err(Error::TimeMatchOver)
    );
    assert_eq!(betting.exists_match(ALICE), false);
}

#[test]
fn bet_works() {
    let mut betting = create_contract(ALICE);

    let match_id = create_match(&mut betting, ALICE, "team1", "team2", 10, 10, 0, 1000000000000);

    assert_eq!(
        betting.bet(match_id, MatchResult::Team1Victory, BOB, 0, 10000000000),
        Ok(BetPlaced {
            match_id,
            who: BOB,
            amount: 10000000000,
            result: MatchResult::Team1Victory,
        })
    );

    let bet = Bet { bettor: BOB, amount: 10000000000, result: MatchResult::Team1Victory };
    assert_eq!(betting.get_match(match_id).unwrap().bets.contains(&bet), true);
}

#[test]
fn bet_error_match_not_exist() {
    let mut betting = create_contract(ALICE);

    assert_eq!(
        betting.bet(ALICE, MatchResult::Team1Victory, BOB, 0, 10000000000),
        Err(Error::MatchDoesNotExist)
    );
}

#[test]
fn bet_error_match_has_start() {
    let mut betting = create_contract(ALICE);

    create_match(&mut betting, ALICE, "team1", "team2", 1, 10, 0, 1000000000000);

    // At block 2 the match that started at block 1 takes no more bets,
    // and its bets stay unchanged.
    assert_eq!(
        betting.bet(ALICE, MatchResult::Team1Victory, BOB, 2, 10000000000),
        Err(Error::MatchHasStarted)
    );
    assert_eq!(betting.get_match(ALICE).unwrap().bets.len(), 0);
}

#[test]
fn bet_error_duplicate_bet() {
    let mut betting = create_contract(ALICE);

    let match_id = create_match(&mut betting, ALICE, "team1", "team2", 10, 10, 0, 1000000000000);

    assert!(betting.bet(match_id, MatchResult::Team1Victory, BOB, 0, 10000000000).is_ok());

    assert_eq!(
        betting.bet(match_id, MatchResult::Team1Victory, BOB, 0, 10000000000),
        Err(Error::AlreadyBet)
    );
    // The bets hold exactly one copy of the tuple.
    let bets = betting.get_match(match_id).unwrap().bets;
    let bet = Bet { bettor: BOB, amount: 10000000000, result: MatchResult::Team1Victory };
    assert_eq!(bets.iter().filter(|b| **b == bet).count(), 1);
}

#[test]
fn set_result_works() {
    let mut betting = create_contract(ALICE);

    let match_id = create_match(&mut betting, ALICE, "team1", "team2", 1, 1, 0, 1000000000000);

    assert_eq!(betting.exists_match(match_id), true);

    // At block 3 the window ending at block 2 is over.
    assert_eq!(
        betting.set_result(match_id, MatchResult::Team1Victory, ALICE, 3),
        Ok(MatchResultSet { match_id, result: MatchResult::Team1Victory })
    );
    assert_eq!(
        betting.get_match(match_id).unwrap().result,
        Some(MatchResult::Team1Victory)
    );
}

#[test]
fn set_result_bad_origin() {
    let mut betting = create_contract(ALICE);

    let match_id = create_match(&mut betting, ALICE, "team1", "team2", 1, 1, 0, 1000000000000);

    // Bob is not the settlement authority, and the result stays unset.
    assert_eq!(
        betting.set_result(match_id, MatchResult::Team1Victory, BOB, 3),
        Err(Error::BadOrigin)
    );
    assert_eq!(betting.get_match(match_id).unwrap().result, None);
}

#[test]
fn set_result_match_not_exist() {
    let mut betting = create_contract(ALICE);

    assert_eq!(
        betting.set_result(ALICE, MatchResult::Team1Victory, ALICE, 3),
        Err(Error::MatchDoesNotExist)
    );
}

#[test]
fn set_result_match_not_finished() {
    let mut betting = create_contract(ALICE);

    let match_id = create_match(&mut betting, ALICE, "team1", "team2", 10, 10, 0, 1000000000000);

    // At block 0 the window ending at block 20 is not over, and the
    // result stays unset.
    assert_eq!(
        betting.set_result(match_id, MatchResult::Team1Victory, ALICE, 0),
        Err(Error::TimeMatchNotOver)
    );
    assert_eq!(betting.get_match(match_id).unwrap().result, None);
}

#[test]
fn set_result_already_set() {
    let mut betting = create_contract(ALICE);

    let match_id = create_match(&mut betting, ALICE, "team1", "team2", 1, 1, 0, 1000000000000);

    assert!(betting.set_result(match_id, MatchResult::Team1Victory, ALICE, 3).is_ok());

    // A second recording, even of a different outcome, is refused, and
    // the result stays as first recorded.
    assert_eq!(
        betting.set_result(match_id, MatchResult::Team2Victory, ALICE, 4),
        Err(Error::MatchResultAlreadySet)
    );
    assert_eq!(
        betting.get_match(match_id).unwrap().result,
        Some(MatchResult::Team1Victory)
    );
}

#[test]
fn get_match_returns_copy_of_stored_match() {
    let mut betting = create_contract(ALICE);

    assert!(betting.get_match(DJANGO).is_none());

    create_match(&mut betting, DJANGO, "reds", "blues", 5, 7, 0, 2000000000000);

    let m = betting.get_match(DJANGO).unwrap();
    assert_eq!(m.start, 5);
    assert_eq!(m.length, 7);
    assert_eq!(m.team1, "reds".as_bytes().to_vec());
    assert_eq!(m.team2, "blues".as_bytes().to_vec());
    assert_eq!(m.result, None);
    assert_eq!(m.bets.len(), 0);
    assert_eq!(m.deposit, 2000000000000);
}
