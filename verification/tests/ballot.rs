use asset_registry::ballot::{Ballot, Error, Vote, Voter};

const ALICE: u64 = 1;
const BOB: u64 = 2;
const EVE: u64 = 3;

#[test]
fn constructor_works() {
    let contract = Ballot::new(ALICE);
    assert_eq!(contract.chairperson, ALICE);
}

#[test]
fn get_chairperson_works() {
    let contract = Ballot::new(ALICE);
    let chairperson = contract.get_chairperson();
    assert_eq!(chairperson, ALICE);
}

#[test]
fn give_right_to_vote_works() {
    let mut contract = Ballot::new(ALICE);
    let result = contract.give_right_to_vote(ALICE, BOB);

    assert_eq!(result, Ok(()));
    assert_eq!(contract.get_voter(BOB).unwrap().has_right_to_vote, true);
}

#[test]
fn only_chairperson_grants_rights() {
    let mut contract = Ballot::new(ALICE);
    let result = contract.give_right_to_vote(BOB, EVE);
    assert_eq!(result, Err(Error::CallerIsNotChairPerson));
    assert_eq!(contract.get_voter(EVE), Err(Error::VoterNotFound));
}

#[test]
fn only_chairperson_initializes_proposals() {
    let mut contract = Ballot::new(ALICE);
    assert_eq!(contract.init_proposals(BOB, 3), Err(Error::CallerIsNotChairPerson));
    assert_eq!(contract.get_proposal_votes(0), Err(Error::ProposalNotFound));
    assert_eq!(contract.init_proposals(ALICE, 3), Ok(()));
    assert_eq!(contract.get_proposal_votes(0), Ok(0));
    assert_eq!(contract.get_proposal_votes(2), Ok(0));
    assert_eq!(contract.get_proposal_votes(3), Err(Error::ProposalNotFound));
}

#[test]
fn vote_counts_and_marks_voter() {
    let mut contract = Ballot::new(ALICE);
    contract.init_proposals(ALICE, 3).unwrap();
    contract.give_right_to_vote(ALICE, BOB).unwrap();

    assert_eq!(contract.vote(BOB, 1), Ok(()));
    assert_eq!(contract.get_proposal_votes(1), Ok(1));
    let bob = contract.get_voter(BOB).unwrap();
    assert_eq!(bob, Voter { has_right_to_vote: true, voted: true, vote: 1 });
    assert_eq!(contract.events, vec![Vote { account: BOB, proposal_index: 1 }]);
}

#[test]
fn double_vote_is_rejected() {
    let mut contract = Ballot::new(ALICE);
    contract.init_proposals(ALICE, 2).unwrap();
    contract.vote(ALICE, 0).unwrap();
    assert_eq!(contract.vote(ALICE, 1), Err(Error::CallerHasVoted));
    assert_eq!(contract.get_proposal_votes(0), Ok(1));
    assert_eq!(contract.get_proposal_votes(1), Ok(0));
}

#[test]
fn unauthorized_vote_is_rejected() {
    let mut contract = Ballot::new(ALICE);
    contract.init_proposals(ALICE, 2).unwrap();
    assert_eq!(contract.vote(EVE, 0), Err(Error::CallerHasNotAuthorizedToVote));
    assert_eq!(contract.get_proposal_votes(0), Ok(0));
}

#[test]
fn vote_for_missing_proposal_is_rejected() {
    let mut contract = Ballot::new(ALICE);
    contract.init_proposals(ALICE, 2).unwrap();
    assert_eq!(contract.vote(ALICE, 2), Err(Error::ProposalNotFound));
    let alice = contract.get_voter(ALICE).unwrap();
    assert_eq!(alice.voted, false);
}

#[test]
fn winning_proposal_picks_first_maximum() {
    let mut contract = Ballot::new(ALICE);
    assert_eq!(contract.winning_proposal(), 0);
    contract.init_proposals(ALICE, 3).unwrap();
    assert_eq!(contract.winning_proposal(), 0);
    contract.give_right_to_vote(ALICE, BOB).unwrap();
    contract.give_right_to_vote(ALICE, EVE).unwrap();
    contract.vote(ALICE, 2).unwrap();
    assert_eq!(contract.winning_proposal(), 2);
    contract.vote(BOB, 1).unwrap();
    // a tie goes to the earliest proposal
    assert_eq!(contract.winning_proposal(), 1);
    contract.vote(EVE, 2).unwrap();
    assert_eq!(contract.winning_proposal(), 2);
}

#[test]
fn regranting_resets_a_voter() {
    let mut contract = Ballot::new(ALICE);
    contract.init_proposals(ALICE, 1).unwrap();
    contract.give_right_to_vote(ALICE, BOB).unwrap();
    contract.vote(BOB, 0).unwrap();
    contract.give_right_to_vote(ALICE, BOB).unwrap();
    let bob = contract.get_voter(BOB).unwrap();
    assert_eq!(bob, Voter { has_right_to_vote: true, voted: false, vote: 0 });
    // the earlier tally is not rolled back by a re-grant
    assert_eq!(contract.get_proposal_votes(0), Ok(1));
}
