//! A small voting registry: the chairperson grants voting rights, each
//! authorized account casts at most one vote for a numbered proposal,
//! and the proposal with the most votes wins (ties go to the earliest).

use vstd::prelude::*;

verus! {

/// One account's voting record.
#[derive(Clone, Copy, Debug, PartialEq, Eq, Structural)]
pub struct Voter {
    /// Whether the account may vote.
    pub has_right_to_vote: bool,
    /// Whether the account has already voted.
    pub voted: bool,
    /// The index of the proposal voted for, when `voted` is set.
    pub vote: u64,
}

/// Why a ballot call was rejected.
#[derive(Clone, Copy, Debug, PartialEq, Eq, Structural)]
pub enum Error {
    /// The caller is not the chairperson but must be.
    CallerIsNotChairPerson,
    /// The caller has already voted.
    CallerHasVoted,
    /// The caller is not authorized to vote.
    CallerHasNotAuthorizedToVote,
    /// No voting record exists for the requested account.
    VoterNotFound,
    /// The requested proposal does not exist.
    ProposalNotFound,
}

/// Recorded whenever a new vote is cast.
#[derive(Clone, Copy, Debug, PartialEq, Eq, Structural)]
pub struct Vote {
    pub account: u64,
    pub proposal_index: u64,
}

/// One registered account together with its voting record.
pub struct VoterEntry {
    pub account: u64,
    pub voter: Voter,
}

/// The ballot's state: the registered voters, the running tally of each
/// proposal, the chairperson, and the votes recorded so far.
pub struct Ballot {
    pub voters: Vec<VoterEntry>,
    pub proposals: Vec<u64>,
    pub chairperson: u64,
    pub events: Vec<Vote>,
}

impl Ballot {
    /// Well-formedness: each account has at most one voting record.
    pub open spec fn wf(self) -> bool {
        forall|i: int, j: int|
            0 <= i < j < self.voters@.len() ==> (#[trigger] self.voters@[i]).account != (
            #[trigger] self.voters@[j]).account
    }

    /// Whether a voting record exists for this account.
    pub open spec fn has_voter(self, a: u64) -> bool {
        exists|i: int| 0 <= i < self.voters@.len() && (#[trigger] self.voters@[i]).account == a
    }

    /// The position of this account's record; meaningful only when
    /// `wf()` holds and `has_voter(a)` is true.
    pub open spec fn voter_idx(self, a: u64) -> int {
        choose|i: int| 0 <= i < self.voters@.len() && (#[trigger] self.voters@[i]).account == a
    }

    /// This account's voting record.
    pub open spec fn voter_of(self, a: u64) -> Voter {
        self.voters@[self.voter_idx(a)].voter
    }

    /// In a well-formed ballot, the record at a known position is the
    /// one its account resolves to.
    pub proof fn lemma_voter_at(self, i: int)
        requires
            self.wf(),
            0 <= i < self.voters@.len(),
        ensures
            self.has_voter(self.voters@[i].account),
            self.voter_idx(self.voters@[i].account) == i,
            self.voter_of(self.voters@[i].account) == self.voters@[i].voter,
    {
        assert(self.has_voter(self.voters@[i].account));
        let j = self.voter_idx(self.voters@[i].account);
        if i < j {
            assert(self.voters@[i].account != self.voters@[j].account);
        } else if j < i {
            assert(self.voters@[j].account != self.voters@[i].account);
        }
    }

    /// When only the record at position `n` changed, and it kept its
    /// account, every other account's record reads the same as before.
    proof fn lemma_same_other_voters(self, pre: Ballot, x: u64, n: int)
        requires
            self.wf(),
            pre.wf(),
            0 <= n < self.voters@.len(),
            pre.voters@.len() == self.voters@.len() || (pre.voters@.len() + 1
                == self.voters@.len() && n == pre.voters@.len()),
            n < pre.voters@.len() ==> pre.voters@[n].account == self.voters@[n].account,
            forall|k: int|
                0 <= k < pre.voters@.len() && k != n ==> pre.voters@[k] == #[trigger] self.voters@[k],
            x != self.voters@[n].account,
        ensures
            self.has_voter(x) == pre.has_voter(x),
            pre.has_voter(x) ==> self.voter_of(x) == pre.voter_of(x),
    {
        if pre.has_voter(x) {
            let k = pre.voter_idx(x);
            assert(pre.voters@[k].account == x);
            assert(k != n);
            assert(self.voters@[k].account == x);
            pre.lemma_voter_at(k);
            self.lemma_voter_at(k);
        } else {
            if self.has_voter(x) {
                let k = self.voter_idx(x);
                assert(self.voters@[k].account == x);
                assert(k != n);
                assert(k < pre.voters@.len());
                assert(pre.voters@[k].account == x);
                assert(false);
            }
        }
    }

    /// Finds the position of this account's record, if it has one.
    fn find_voter(&self, a: u64) -> (r: Option<usize>)
        requires
            self.wf(),
        ensures
            match r {
                Some(i) => {
                    &&& i < self.voters@.len()
                    &&& self.voters@[i as int].account == a
                    &&& self.has_voter(a)
                    &&& self.voter_idx(a) == i as int
                },
                None => !self.has_voter(a),
            },
    {
        let mut i: usize = 0;
        while i < self.voters.len()
            invariant
                self.wf(),
                i <= self.voters@.len(),
                forall|k: int| 0 <= k < i ==> (#[trigger] self.voters@[k]).account != a,
            decreases self.voters@.len() - i,
        {
            if self.voters[i].account == a {
                proof {
                    self.lemma_voter_at(i as int);
                }
                return Some(i);
            }
            i += 1;
        }
        None
    }

    /// Registers or overwrites this account's record with a fresh one
    /// that may vote and has not voted.
    fn put_voter(&mut self, a: u64)
        requires
            old(self).wf(),
        ensures
            final(self).wf(),
            final(self).has_voter(a),
            final(self).voter_of(a) == (Voter { has_right_to_vote: true, voted: false, vote: 0 }),
            forall|x: u64| x != a ==> #[trigger] final(self).has_voter(x) == old(self).has_voter(x),
            forall|x: u64|
                x != a && old(self).has_voter(x) ==> #[trigger] final(self).voter_of(x) == old(
                    self,
                ).voter_of(x),
            final(self).proposals == old(self).proposals,
            final(self).chairperson == old(self).chairperson,
            final(self).events == old(self).events,
    {
        let ghost pre = *self;
        let fresh = Voter { has_right_to_vote: true, voted: false, vote: 0 };
        match self.find_voter(a) {
            Some(i) => {
                self.voters[i].voter = fresh;
                proof {
                    let n = i as int;
                    assert(self.voters@ == pre.voters@.update(
                        n,
                        VoterEntry { account: a, voter: fresh },
                    ));
                    assert forall|p: int, q: int| 0 <= p < q < self.voters@.len() implies (
                    #[trigger] self.voters@[p]).account != (#[trigger] self.voters@[q]).account by {
                        assert(pre.voters@[p].account != pre.voters@[q].account);
                        assert(self.voters@[p].account == pre.voters@[p].account);
                        assert(self.voters@[q].account == pre.voters@[q].account);
                    }
                    self.lemma_voter_at(n);
                    assert forall|x: u64| x != a implies #[trigger] self.has_voter(x)
                        == pre.has_voter(x) by {
                        self.lemma_same_other_voters(pre, x, n);
                    }
                    assert forall|x: u64| x != a && pre.has_voter(x) implies #[trigger] self.voter_of(
                        x,
                    ) == pre.voter_of(x) by {
                        self.lemma_same_other_voters(pre, x, n);
                    }
                }
            },
            None => {
                let entry = VoterEntry { account: a, voter: fresh };
                self.voters.push(entry);
                proof {
                    let n = pre.voters@.len() as int;
                    assert(self.voters@[n] == entry);
                    assert forall|p: int, q: int| 0 <= p < q < self.voters@.len() implies (
                    #[trigger] self.voters@[p]).account != (#[trigger] self.voters@[q]).account by {
                        if q < n {
                            assert(pre.voters@[p] == self.voters@[p]);
                            assert(pre.voters@[q] == self.voters@[q]);
                        } else {
                            assert(self.voters@[p] == pre.voters@[p]);
                            assert(!pre.has_voter(a));
                        }
                    }
                    self.lemma_voter_at(n);
                    assert forall|x: u64| x != a implies #[trigger] self.has_voter(x)
                        == pre.has_voter(x) by {
                        self.lemma_same_other_voters(pre, x, n);
                    }
                    assert forall|x: u64| x != a && pre.has_voter(x) implies #[trigger] self.voter_of(
                        x,
                    ) == pre.voter_of(x) by {
                        self.lemma_same_other_voters(pre, x, n);
                    }
                }
            },
        }
    }

    /// A fresh ballot whose constructor's caller becomes the
    /// chairperson, already authorized to vote.
    pub fn new(caller: u64) -> (r: Ballot)
        ensures
            r.wf(),
            r.chairperson == caller,
            r.has_voter(caller),
            r.voter_of(caller) == (Voter { has_right_to_vote: true, voted: false, vote: 0 }),
            forall|x: u64| x != caller ==> !(#[trigger] r.has_voter(x)),
            r.proposals@.len() == 0,
            r.events@.len() == 0,
    {
        let mut r = Ballot {
            voters: Vec::new(),
            proposals: Vec::new(),
            chairperson: caller,
            events: Vec::new(),
        };
        r.put_voter(caller);
        r
    }

    /// The account that constructed the ballot.
    pub fn get_chairperson(&self) -> (r: u64)
        ensures
            r == self.chairperson,
    {
        self.chairperson
    }

    /// Grants this account the right to vote, resetting its record.
    /// Only the chairperson may do this.
    pub fn give_right_to_vote(&mut self, caller: u64, account: u64) -> (r: Result<(), Error>)
        requires
            old(self).wf(),
        ensures
            final(self).wf(),
            final(self).chairperson == old(self).chairperson,
            r is Ok <==> caller == old(self).chairperson,
            match r {
                Ok(()) => {
                    &&& final(self).has_voter(account)
                    &&& final(self).voter_of(account) == (Voter {
                        has_right_to_vote: true,
                        voted: false,
                        vote: 0,
                    })
                    &&& forall|x: u64|
                        x != account ==> #[trigger] final(self).has_voter(x) == old(
                            self,
                        ).has_voter(x)
                    &&& forall|x: u64|
                        x != account && old(self).has_voter(x) ==> #[trigger] final(self).voter_of(
                            x,
                        ) == old(self).voter_of(x)
                    &&& final(self).proposals == old(self).proposals
                    &&& final(self).events == old(self).events
                },
                Err(e) => {
                    &&& e == Error::CallerIsNotChairPerson
                    &&& *final(self) == *old(self)
                },
            },
    {
        if caller != self.chairperson {
            return Err(Error::CallerIsNotChairPerson);
        }
        self.put_voter(account);
        Ok(())
    }

    /// Appends `num` fresh proposals, each starting with a zero tally.
    /// Only the chairperson may do this.
    pub fn init_proposals(&mut self, caller: u64, num: u64) -> (r: Result<(), Error>)
        requires
            old(self).wf(),
        ensures
            final(self).wf(),
            final(self).chairperson == old(self).chairperson,
            r is Ok <==> caller == old(self).chairperson,
            match r {
                Ok(()) => {
                    &&& final(self).proposals@.len() == old(self).proposals@.len() + num
                    &&& forall|j: int|
                        0 <= j < old(self).proposals@.len() ==> #[trigger] final(self).proposals@[j]
                            == old(self).proposals@[j]
                    &&& forall|j: int|
                        old(self).proposals@.len() <= j < final(self).proposals@.len()
                            ==> #[trigger] final(self).proposals@[j] == 0
                    &&& final(self).voters == old(self).voters
                    &&& final(self).events == old(self).events
                },
                Err(e) => {
                    &&& e == Error::CallerIsNotChairPerson
                    &&& *final(self) == *old(self)
                },
            },
    {
        if caller != self.chairperson {
            return Err(Error::CallerIsNotChairPerson);
        }
        let mut i: u64 = 0;
        while i < num
            invariant
                i <= num,
                self.wf(),
                self.proposals@.len() == old(self).proposals@.len() + i,
                forall|j: int|
                    0 <= j < old(self).proposals@.len() ==> #[trigger] self.proposals@[j] == old(
                        self,
                    ).proposals@[j],
                forall|j: int|
                    old(self).proposals@.len() <= j < self.proposals@.len()
                        ==> #[trigger] self.proposals@[j] == 0,
                self.voters == old(self).voters,
                self.chairperson == old(self).chairperson,
                self.events == old(self).events,
            decreases num - i,
        {
            self.proposals.push(0);
            i += 1;
        }
        Ok(())
    }

    /// Looks this account's voting record up.
    pub fn get_voter(&self, account: u64) -> (r: Result<Voter, Error>)
        requires
            self.wf(),
        ensures
            match r {
                Ok(v) => self.has_voter(account) && v == self.voter_of(account),
                Err(e) => e == Error::VoterNotFound && !self.has_voter(account),
            },
    {
        match self.find_voter(account) {
            Some(i) => Ok(self.voters[i].voter),
            None => Err(Error::VoterNotFound),
        }
    }

    /// Casts the caller's vote for a proposal: the caller must be
    /// authorized, must not have voted yet, and the proposal must exist.
    /// On success the caller's record is marked voted and the proposal's
    /// tally advances by one.
    pub fn vote(&mut self, caller: u64, proposal: u64) -> (r: Result<(), Error>)
        requires
            old(self).wf(),
            proposal < old(self).proposals@.len() ==> old(self).proposals@[proposal as int]
                < u64::MAX,
        ensures
            final(self).wf(),
            final(self).chairperson == old(self).chairperson,
            r is Ok <==> {
                &&& old(self).has_voter(caller)
                &&& old(self).voter_of(caller).has_right_to_vote
                &&& !old(self).voter_of(caller).voted
                &&& proposal < old(self).proposals@.len()
            },
            match r {
                Ok(()) => {
                    &&& final(self).has_voter(caller)
                    &&& final(self).voter_of(caller) == (Voter {
                        has_right_to_vote: true,
                        voted: true,
                        vote: proposal,
                    })
                    &&& forall|x: u64| #[trigger]
                        final(self).has_voter(x) == old(self).has_voter(x)
                    &&& forall|x: u64|
                        x != caller && old(self).has_voter(x) ==> #[trigger] final(self).voter_of(
                            x,
                        ) == old(self).voter_of(x)
                    &&& final(self).proposals@ == old(self).proposals@.update(
                        proposal as int,
                        (old(self).proposals@[proposal as int] + 1) as u64,
                    )
                    &&& final(self).events@ == old(self).events@.push(
                        Vote { account: caller, proposal_index: proposal },
                    )
                },
                Err(e) => {
                    &&& *final(self) == *old(self)
                    &&& (e == Error::CallerHasNotAuthorizedToVote <==> !old(self).has_voter(caller)
                        || !old(self).voter_of(caller).has_right_to_vote)
                    &&& (e == Error::CallerHasVoted <==> old(self).has_voter(caller) && old(
                        self,
                    ).voter_of(caller).has_right_to_vote && old(self).voter_of(caller).voted)
                    &&& (e == Error::ProposalNotFound <==> old(self).has_voter(caller) && old(
                        self,
                    ).voter_of(caller).has_right_to_vote && !old(self).voter_of(caller).voted
                        && proposal >= old(self).proposals@.len())
                },
            },
    {
        let ghost pre = *self;
        let i = match self.find_voter(caller) {
            None => {
                return Err(Error::CallerHasNotAuthorizedToVote);
            },
            Some(i) => i,
        };
        let current = self.voters[i].voter;
        if !current.has_right_to_vote {
            return Err(Error::CallerHasNotAuthorizedToVote);
        }
        if current.voted {
            return Err(Error::CallerHasVoted);
        }
        if proposal >= self.proposals.len() as u64 {
            return Err(Error::ProposalNotFound);
        }
        let p = proposal as usize;
        self.voters[i].voter = Voter { has_right_to_vote: true, voted: true, vote: proposal };
        let tally = self.proposals[p];
        self.proposals[p] = tally + 1;
        self.events.push(Vote { account: caller, proposal_index: proposal });
        proof {
            let n = i as int;
            assert(self.voters@ == pre.voters@.update(
                n,
                VoterEntry {
                    account: caller,
                    voter: Voter { has_right_to_vote: true, voted: true, vote: proposal },
                },
            ));
            assert forall|a: int, b: int| 0 <= a < b < self.voters@.len() implies (
            #[trigger] self.voters@[a]).account != (#[trigger] self.voters@[b]).account by {
                assert(pre.voters@[a].account != pre.voters@[b].account);
                assert(self.voters@[a].account == pre.voters@[a].account);
                assert(self.voters@[b].account == pre.voters@[b].account);
            }
            self.lemma_voter_at(n);
            assert forall|x: u64| #[trigger] self.has_voter(x) == pre.has_voter(x) by {
                if x != caller {
                    self.lemma_same_other_voters(pre, x, n);
                } else {
                    assert(pre.voters@[n].account == caller);
                    assert(pre.has_voter(caller));
                }
            }
            assert forall|x: u64| x != caller && pre.has_voter(x) implies #[trigger] self.voter_of(
                x,
            ) == pre.voter_of(x) by {
                self.lemma_same_other_voters(pre, x, n);
            }
        }
        Ok(())
    }

    /// The current tally of a proposal.
    pub fn get_proposal_votes(&self, proposal: u64) -> (r: Result<u64, Error>)
        ensures
            match r {
                Ok(v) => proposal < self.proposals@.len() && v == self.proposals@[proposal as int],
                Err(e) => e == Error::ProposalNotFound && proposal >= self.proposals@.len(),
            },
    {
        if proposal >= self.proposals.len() as u64 {
            return Err(Error::ProposalNotFound);
        }
        Ok(self.proposals[proposal as usize])
    }

    /// The index of the first proposal whose tally no other proposal
    /// exceeds; zero when there are no proposals.
    pub fn winning_proposal(&self) -> (r: u64)
        ensures
            self.proposals@.len() == 0 ==> r == 0,
            self.proposals@.len() > 0 ==> {
                &&& (r as int) < self.proposals@.len()
                &&& forall|j: int|
                    0 <= j < self.proposals@.len() ==> #[trigger] self.proposals@[j]
                        <= self.proposals@[r as int]
                &&& forall|j: int|
                    0 <= j < r as int ==> #[trigger] self.proposals@[j] < self.proposals@[r as int]
            },
    {
        let mut max: u64 = 0;
        let mut max_index: usize = 0;
        let mut i: usize = 0;
        while i < self.proposals.len()
            invariant
                i <= self.proposals@.len(),
                max > 0 ==> {
                    &&& max_index < i
                    &&& self.proposals@[max_index as int] == max
                    &&& forall|j: int| 0 <= j < i ==> #[trigger] self.proposals@[j] <= max
                    &&& forall|j: int|
                        0 <= j < max_index as int ==> #[trigger] self.proposals@[j] < max
                },
                max == 0 ==> {
                    &&& max_index == 0
                    &&& forall|j: int| 0 <= j < i ==> #[trigger] self.proposals@[j] == 0
                },
            decreases self.proposals@.len() - i,
        {
            if self.proposals[i] > max {
                max = self.proposals[i];
                max_index = i;
            }
            i += 1;
        }
        max_index as u64
    }
}

} // verus!
