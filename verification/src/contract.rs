//! The voting contract: its state, the operations that decide on values the host
//! reported, and the calls that read the host and then decide.
use vstd::prelude::*;

use crate::host;
use crate::host::{
    reported_caller, reported_epoch_height, reported_state_exists, reported_timestamp,
    reported_total_stake, reported_validator_stake,
};
use crate::laws::{cast_keeps_invariant, ping_keeps_invariant};
use crate::lemmas::{
    lemma_stake_sum_prefix, lemma_stakes_total_prefix, lemma_without, lemma_without_absent,
    lemma_without_at,
};
use crate::model::{
    after_cast, after_ping, after_vote, all_positive, distinct_accounts, ends_voting, has_account,
    outcome_is, recount, stake_sum, stakes_total, without, VoteView, VotingError,
    VotingView,
};

verus! {

/// The account ids, as character sequences, and the stakes of `votes`.
pub open spec fn votes_view(votes: Seq<(String, u128)>) -> Seq<VoteView> {
    votes.map_values(|e: (String, u128)| (e.0@, e.1))
}

/// What `ping` read from the host: the current epoch and, where it differs from the
/// epoch of the last weighing, the current stake of each voter in vote order, the total
/// validator stake and the block timestamp.
pub open spec fn ping_reads(
    v: VotingView,
    epoch: u64,
    stakes: Seq<u128>,
    total_stake: u128,
    timestamp: u64,
) -> bool {
    &&& reported_epoch_height(epoch)
    &&& epoch != v.last_epoch_height ==> {
        &&& stakes.len() == v.votes.len()
        &&& forall|i: int|
            0 <= i < stakes.len() ==> reported_validator_stake(v.votes[i].0, #[trigger] stakes[i])
        &&& reported_total_stake(total_stake)
        &&& reported_timestamp(timestamp)
    }
}

/// What `vote` read from the host: what `ping` reads, the total validator stake, the
/// block timestamp, the calling account and, for a vote for, that account's stake.
pub open spec fn vote_reads(
    v: VotingView,
    epoch: u64,
    stakes: Seq<u128>,
    total_stake: u128,
    timestamp: u64,
    account: Seq<char>,
    is_vote: bool,
    account_stake: u128,
) -> bool {
    &&& reported_epoch_height(epoch)
    &&& epoch != v.last_epoch_height ==> {
        &&& stakes.len() == v.votes.len()
        &&& forall|i: int|
            0 <= i < stakes.len() ==> reported_validator_stake(v.votes[i].0, #[trigger] stakes[i])
    }
    &&& reported_total_stake(total_stake)
    &&& reported_timestamp(timestamp)
    &&& reported_caller(account)
    &&& is_vote ==> reported_validator_stake(account, account_stake)
}

/// Voting contract for unlocking transfers. Once more than two thirds of the validator
/// stake agrees to unlock transfers, the time is recorded and the voting ends.
pub struct VotingContract {
    /// How much each validator votes, in the order in which the votes were recorded.
    votes: Vec<(String, u128)>,
    /// Total voted stake so far.
    total_voted_stake: u128,
    /// When the voting ended. `None` means the poll is still open.
    result: Option<u64>,
    /// Epoch height when the contract was touched last time.
    last_epoch_height: u64,
}

impl View for VotingContract {
    type V = VotingView;

    closed spec fn view(&self) -> VotingView {
        VotingView {
            votes: votes_view(self.votes@),
            total_voted_stake: self.total_voted_stake,
            result: self.result,
            last_epoch_height: self.last_epoch_height,
        }
    }
}

/// A copy of `votes`, account ids cloned.
fn clone_votes(votes: &Vec<(String, u128)>) -> (r: Vec<(String, u128)>)
    ensures
        votes_view(r@) == votes_view(votes@),
{
    let mut r: Vec<(String, u128)> = Vec::new();
    let mut i: usize = 0;
    while i < votes.len()
        invariant
            i <= votes.len(),
            votes_view(r@) =~= votes_view(votes@).take(i as int),
        decreases votes.len() - i,
    {
        let ghost before = votes_view(r@);
        let account = votes[i].0.clone();
        r.push((account, votes[i].1));
        assert(votes_view(r@) =~= before.push(votes_view(votes@)[i as int]));
        assert(votes_view(votes@).take(i + 1) =~= votes_view(votes@).take(i as int).push(
            votes_view(votes@)[i as int],
        ));
        i = i + 1;
    }
    assert(votes_view(votes@).take(votes.len() as int) =~= votes_view(votes@));
    r
}

/// The position of `account`'s vote in `votes`, if it has one.
fn position_of(votes: &Vec<(String, u128)>, account: &String) -> (r: Option<usize>)
    ensures
        match r {
            Some(i) => i < votes.len() && votes_view(votes@)[i as int].0 == account@,
            None => !has_account(votes_view(votes@), account@),
        },
{
    let mut i: usize = 0;
    while i < votes.len()
        invariant
            i <= votes.len(),
            forall|j: int| 0 <= j < i ==> votes_view(votes@)[j].0 != account@,
        decreases votes.len() - i,
    {
        if votes[i].0 == *account {
            return Some(i);
        }
        i = i + 1;
    }
    None
}

/// The sum of `stakes`, or `None` where it does not fit in a `u128`.
fn stake_total(stakes: &Vec<u128>) -> (r: Option<u128>)
    ensures
        match r {
            Some(t) => t == stakes_total(stakes@),
            None => stakes_total(stakes@) > u128::MAX,
        },
{
    let mut total: u128 = 0;
    let mut i: usize = 0;
    while i < stakes.len()
        invariant
            i <= stakes.len(),
            total == stakes_total(stakes@.take(i as int)),
        decreases stakes.len() - i,
    {
        proof {
            lemma_stakes_total_prefix(stakes@, i as int);
            lemma_stakes_total_prefix(stakes@, i + 1);
        }
        match total.checked_add(stakes[i]) {
            Some(t) => {
                total = t;
            },
            None => {
                return None;
            },
        }
        i = i + 1;
    }
    assert(stakes@.take(stakes.len() as int) =~= stakes@);
    Some(total)
}

/// Whether no account votes twice in `votes`.
fn accounts_distinct(votes: &Vec<(String, u128)>) -> (r: bool)
    ensures
        r == distinct_accounts(votes_view(votes@)),
{
    let ghost all = votes_view(votes@);
    let mut i: usize = 0;
    while i < votes.len()
        invariant
            i <= votes.len(),
            all == votes_view(votes@),
            forall|a: int, b: int| 0 <= a < i && a < b < votes.len() ==> all[a].0 != all[b].0,
        decreases votes.len() - i,
    {
        let mut j: usize = i + 1;
        while j < votes.len()
            invariant
                i < j <= votes.len(),
                i < votes.len(),
                all == votes_view(votes@),
                forall|a: int, b: int| 0 <= a < i && a < b < votes.len() ==> all[a].0 != all[b].0,
                forall|b: int| i < b < j ==> all[i as int].0 != all[b].0,
            decreases votes.len() - j,
        {
            if votes[i].0 == votes[j].0 {
                assert(all[i as int].0 == all[j as int].0);
                return false;
            }
            j = j + 1;
        }
        i = i + 1;
    }
    true
}

/// Whether every vote in `votes` carries stake and the stakes sum to `total`.
fn stakes_add_up(votes: &Vec<(String, u128)>, total: u128) -> (r: bool)
    ensures
        r == (all_positive(votes_view(votes@)) && stake_sum(votes_view(votes@)) == total),
{
    let ghost all = votes_view(votes@);
    let mut sum: u128 = 0;
    let mut i: usize = 0;
    while i < votes.len()
        invariant
            i <= votes.len(),
            all == votes_view(votes@),
            sum == stake_sum(all.take(i as int)),
            forall|a: int| 0 <= a < i ==> all[a].1 > 0,
        decreases votes.len() - i,
    {
        proof {
            lemma_stake_sum_prefix(all, i as int);
            lemma_stake_sum_prefix(all, i + 1);
        }
        if votes[i].1 == 0 {
            assert(all[i as int].1 == 0);
            return false;
        }
        match sum.checked_add(votes[i].1) {
            Some(s) => {
                sum = s;
            },
            None => {
                return false;
            },
        }
        i = i + 1;
    }
    assert(all.take(votes.len() as int) =~= all);
    sum == total
}

/// The votes re-weighed by `stakes`, the current stake of each voter in vote order.
fn recounted(votes: &Vec<(String, u128)>, stakes: &Vec<u128>) -> (r: Vec<(String, u128)>)
    requires
        votes.len() == stakes.len(),
    ensures
        votes_view(r@) == recount(votes_view(votes@), stakes@),
{
    let ghost all = votes_view(votes@);
    let mut r: Vec<(String, u128)> = Vec::new();
    let mut i: usize = 0;
    while i < votes.len()
        invariant
            i <= votes.len(),
            votes.len() == stakes.len(),
            all == votes_view(votes@),
            votes_view(r@) == recount(all.take(i as int), stakes@.take(i as int)),
        decreases votes.len() - i,
    {
        let ghost before = votes_view(r@);
        proof {
            assert(all.take(i + 1).drop_last() =~= all.take(i as int));
            assert(stakes@.take(i + 1).drop_last() =~= stakes@.take(i as int));
        }
        if stakes[i] > 0 {
            let account = votes[i].0.clone();
            r.push((account, stakes[i]));
            assert(votes_view(r@) =~= before.push((all[i as int].0, stakes@[i as int])));
        }
        i = i + 1;
    }
    assert(all.take(votes.len() as int) =~= all);
    assert(stakes@.take(votes.len() as int) =~= stakes@);
    r
}

/// Whether `voted` stake ends the voting, that is, is more than two thirds of
/// `total_stake` (`voted > 2 * total_stake / 3`); refused where `2 * total_stake`
/// overflows.
pub fn passes_threshold(voted: u128, total_stake: u128) -> (r: Result<bool, VotingError>)
    ensures
        match r {
            Ok(b) => 2 * total_stake <= u128::MAX && b == ends_voting(voted, total_stake),
            Err(e) => e == VotingError::Overflow && 2 * total_stake > u128::MAX,
        },
{
    match total_stake.checked_mul(2) {
        Some(doubled) => Ok(voted > doubled / 3),
        None => Err(VotingError::Overflow),
    }
}

impl VotingContract {
    /// Creates the poll unless the contract state is already stored (`state_exists`).
    pub fn initialize(state_exists: bool) -> (r: Result<VotingContract, VotingError>)
        ensures
            match r {
                Ok(c) => !state_exists && c@ == VotingView::initial() && c@.inv(),
                Err(e) => state_exists && e == VotingError::AlreadyInitialized,
            },
    {
        if state_exists {
            Err(VotingError::AlreadyInitialized)
        } else {
            let c = VotingContract {
                votes: Vec::new(),
                total_voted_stake: 0,
                result: None,
                last_epoch_height: 0,
            };
            assert(c@.votes =~= seq![]);
            Ok(c)
        }
    }

    /// Creates the poll; refused where the host already stores the contract state.
    pub fn new() -> (r: Result<VotingContract, VotingError>)
        ensures
            match r {
                Ok(c) => reported_state_exists(false) && c@ == VotingView::initial() && c@.inv(),
                Err(e) => reported_state_exists(true) && e == VotingError::AlreadyInitialized,
            },
    {
        let exists = host::state_exists();
        proof {
            host::lemma_reported_state_exists(exists);
        }
        Self::initialize(exists)
    }

    /// The poll with the given votes, total voted stake, result and epoch of the last
    /// weighing, as a stored state holds them; `None` where they break the invariant
    /// (an account voting twice, a vote without stake, or a total that is not the sum of
    /// the votes).
    pub fn restore(
        votes: Vec<(String, u128)>,
        total_voted_stake: u128,
        result: Option<u64>,
        last_epoch_height: u64,
    ) -> (r: Option<VotingContract>)
        ensures
            ({
                let v = VotingView {
                    votes: votes_view(votes@),
                    total_voted_stake,
                    result,
                    last_epoch_height,
                };
                match r {
                    Some(c) => v.inv() && c@ == v,
                    None => !v.inv(),
                }
            }),
    {
        if accounts_distinct(&votes) && stakes_add_up(&votes, total_voted_stake) {
            Some(VotingContract { votes, total_voted_stake, result, last_epoch_height })
        } else {
            None
        }
    }

    /// The votes, total voted stake, result and epoch of the last weighing, to be stored.
    pub fn into_parts(self) -> (r: (Vec<(String, u128)>, u128, Option<u64>, u64))
        ensures
            votes_view(r.0@) == self@.votes,
            r.1 == self@.total_voted_stake,
            r.2 == self@.result,
            r.3 == self@.last_epoch_height,
    {
        (self.votes, self.total_voted_stake, self.result, self.last_epoch_height)
    }

    /// A copy of the poll.
    fn duplicate(&self) -> (r: VotingContract)
        ensures
            r@ == self@,
    {
        VotingContract {
            votes: clone_votes(&self.votes),
            total_voted_stake: self.total_voted_stake,
            result: self.result,
            last_epoch_height: self.last_epoch_height,
        }
    }

    /// Weighs the votes anew where `epoch_height` differs from the epoch of the last
    /// weighing: `current_stakes[i]` is the current stake of the voter of the `i`-th
    /// vote. Zero-stake voters drop out, the total is recomputed, and the voting ends,
    /// at `timestamp`, where the total passes two thirds of `total_stake`.
    pub fn observe_epoch(
        &mut self,
        epoch_height: u64,
        current_stakes: &Vec<u128>,
        total_stake: u128,
        timestamp: u64,
    ) -> (r: Result<(), VotingError>)
        requires
            old(self)@.inv(),
            old(self)@.result is None,
            epoch_height != old(self)@.last_epoch_height ==> current_stakes@.len()
                == old(self)@.votes.len(),
        ensures
            outcome_is(
                after_ping(old(self)@, epoch_height, current_stakes@, total_stake, timestamp),
                r,
                old(self)@,
                final(self)@,
            ),
            final(self)@.inv(),
    {
        proof {
            ping_keeps_invariant(self@, epoch_height, current_stakes@, total_stake, timestamp);
        }
        if epoch_height == self.last_epoch_height {
            return Ok(());
        }
        let total = match stake_total(current_stakes) {
            Some(t) => t,
            None => {
                return Err(VotingError::Overflow);
            },
        };
        let ends = match passes_threshold(total, total_stake) {
            Ok(b) => b,
            Err(e) => {
                return Err(e);
            },
        };
        let votes = recounted(&self.votes, current_stakes);
        self.votes = votes;
        self.total_voted_stake = total;
        if ends {
            self.result = Some(timestamp);
        }
        self.last_epoch_height = epoch_height;
        Ok(())
    }

    /// Records `account`'s vote for (`is_vote`, with its stake `account_stake`) or its
    /// withdrawal, unless the voting has ended.
    fn cast(
        &mut self,
        account: String,
        is_vote: bool,
        account_stake: u128,
        total_stake: u128,
        timestamp: u64,
    ) -> (r: Result<(), VotingError>)
        requires
            old(self)@.inv(),
        ensures
            outcome_is(
                after_cast(old(self)@, account@, is_vote, account_stake, total_stake, timestamp),
                r,
                old(self)@,
                final(self)@,
            ),
            final(self)@.inv(),
    {
        proof {
            cast_keeps_invariant(self@, account@, is_vote, account_stake, total_stake, timestamp);
        }
        if self.result.is_some() {
            return Ok(());
        }
        let stake: u128 = if is_vote {
            if account_stake == 0 {
                return Err(VotingError::NotValidator);
            }
            account_stake
        } else {
            0
        };
        let raised = match self.total_voted_stake.checked_add(stake) {
            Some(t) => t,
            None => {
                return Err(VotingError::Overflow);
            },
        };
        let position = position_of(&self.votes, &account);
        let voted_stake: u128 = match position {
            Some(i) => self.votes[i].1,
            None => 0,
        };
        let ghost before = self@.votes;
        proof {
            match position {
                Some(i) => lemma_without_at(before, i as int),
                None => lemma_without_absent(before, account@),
            }
            lemma_without(before, account@);
        }
        let total = raised - voted_stake;
        let ends = if stake > 0 {
            match passes_threshold(total, total_stake) {
                Ok(b) => b,
                Err(e) => {
                    return Err(e);
                },
            }
        } else {
            false
        };
        if let Some(i) = position {
            let _ = self.votes.remove(i);
            assert(votes_view(self.votes@) =~= before.remove(i as int));
        }
        assert(votes_view(self.votes@) == without(before, account@));
        if stake > 0 {
            let ghost rest = votes_view(self.votes@);
            self.votes.push((account, stake));
            assert(votes_view(self.votes@) =~= rest.push((account@, stake)));
        }
        self.total_voted_stake = total;
        if ends {
            self.result = Some(timestamp);
        }
        Ok(())
    }

    /// A vote by `account` for unlocking (`is_vote`) or the withdrawal of its vote, given
    /// what the host reports: the current epoch, the current stakes of the voters in vote
    /// order (read where the epoch changed), the total validator stake, the block
    /// timestamp and the account's own stake. The votes are first weighed anew as
    /// `observe_epoch` does; a vote that this closes is not recorded. A refused vote
    /// changes nothing.
    pub fn apply_vote(
        &mut self,
        epoch_height: u64,
        current_stakes: &Vec<u128>,
        total_stake: u128,
        timestamp: u64,
        account: String,
        is_vote: bool,
        account_stake: u128,
    ) -> (r: Result<(), VotingError>)
        requires
            old(self)@.inv(),
            old(self)@.result is None,
            epoch_height != old(self)@.last_epoch_height ==> current_stakes@.len()
                == old(self)@.votes.len(),
        ensures
            outcome_is(
                after_vote(
                    old(self)@,
                    epoch_height,
                    current_stakes@,
                    total_stake,
                    timestamp,
                    account@,
                    is_vote,
                    account_stake,
                ),
                r,
                old(self)@,
                final(self)@,
            ),
            final(self)@.inv(),
    {
        let mut next = self.duplicate();
        match next.observe_epoch(epoch_height, current_stakes, total_stake, timestamp) {
            Ok(()) => {},
            Err(e) => {
                return Err(e);
            },
        }
        match next.cast(account, is_vote, account_stake, total_stake, timestamp) {
            Ok(()) => {},
            Err(e) => {
                return Err(e);
            },
        }
        *self = next;
        Ok(())
    }

    /// The current stake of each voter, in vote order, as the host reports it.
    fn current_stakes(&self) -> (r: Vec<u128>)
        ensures
            r@.len() == self@.votes.len(),
            forall|i: int|
                0 <= i < r@.len() ==> reported_validator_stake(self@.votes[i].0, #[trigger] r@[i]),
    {
        let mut stakes: Vec<u128> = Vec::new();
        let mut i: usize = 0;
        while i < self.votes.len()
            invariant
                i <= self.votes.len(),
                stakes@.len() == i,
                forall|j: int|
                    0 <= j < i ==> reported_validator_stake(
                        self@.votes[j].0,
                        #[trigger] stakes@[j],
                    ),
            decreases self.votes.len() - i,
        {
            let stake = host::validator_stake(&self.votes[i].0);
            proof {
                host::lemma_reported_validator_stake(self.votes@[i as int].0, stake);
            }
            stakes.push(stake);
            i = i + 1;
        }
        stakes
    }

    /// Updates the votes according to the current stake of the validators, where the
    /// epoch has changed since they were last weighed. Refused, changing nothing, where
    /// a stake sum overflows.
    pub fn ping(&mut self) -> (r: Result<(), VotingError>)
        requires
            old(self)@.inv(),
            old(self)@.result is None,
        ensures
            final(self)@.inv(),
            exists|epoch: u64, stakes: Seq<u128>, total_stake: u128, timestamp: u64|
                ping_reads(old(self)@, epoch, stakes, total_stake, timestamp) && outcome_is(
                    #[trigger] after_ping(old(self)@, epoch, stakes, total_stake, timestamp),
                    r,
                    old(self)@,
                    final(self)@,
                ),
    {
        let ghost before = self@;
        let epoch = host::epoch_height();
        proof {
            host::lemma_reported_epoch_height(epoch);
        }
        if epoch == self.last_epoch_height {
            assert(ping_reads(before, epoch, seq![], 0, 0));
            assert(outcome_is(after_ping(before, epoch, seq![], 0, 0), Ok(()), before, self@));
            return Ok(());
        }
        let stakes = self.current_stakes();
        let total_stake = host::validator_total_stake();
        let timestamp = host::block_timestamp();
        proof {
            host::lemma_reported_total_stake(total_stake);
            host::lemma_reported_timestamp(timestamp);
        }
        let r = self.observe_epoch(epoch, &stakes, total_stake, timestamp);
        assert(ping_reads(before, epoch, stakes@, total_stake, timestamp));
        assert(outcome_is(after_ping(before, epoch, stakes@, total_stake, timestamp), r, before, self@));
        r
    }

    /// Votes for unlocking transfers if `is_vote`, or withdraws the caller's vote. The
    /// votes are first updated as `ping` does; where that ends the voting, the vote is not
    /// recorded. Refused, changing nothing, where the caller votes for without validator
    /// stake, or where a stake sum overflows.
    pub fn vote(&mut self, is_vote: bool) -> (r: Result<(), VotingError>)
        requires
            old(self)@.inv(),
            old(self)@.result is None,
        ensures
            final(self)@.inv(),
            exists|
                epoch: u64,
                stakes: Seq<u128>,
                total_stake: u128,
                timestamp: u64,
                account: Seq<char>,
                account_stake: u128,
            |
                vote_reads(
                    old(self)@,
                    epoch,
                    stakes,
                    total_stake,
                    timestamp,
                    account,
                    is_vote,
                    account_stake,
                ) && outcome_is(
                    #[trigger] after_vote(
                        old(self)@,
                        epoch,
                        stakes,
                        total_stake,
                        timestamp,
                        account,
                        is_vote,
                        account_stake,
                    ),
                    r,
                    old(self)@,
                    final(self)@,
                ),
    {
        let ghost before = self@;
        let epoch = host::epoch_height();
        let stakes = if epoch != self.last_epoch_height {
            self.current_stakes()
        } else {
            Vec::new()
        };
        let total_stake = host::validator_total_stake();
        let timestamp = host::block_timestamp();
        let account = host::predecessor_account_id();
        let account_stake: u128 = if is_vote {
            let stake = host::validator_stake(&account);
            proof {
                host::lemma_reported_validator_stake(account, stake);
            }
            stake
        } else {
            0
        };
        proof {
            host::lemma_reported_epoch_height(epoch);
            host::lemma_reported_total_stake(total_stake);
            host::lemma_reported_timestamp(timestamp);
            host::lemma_reported_caller(account);
        }
        let ghost voter = account@;
        assert(vote_reads(
            before,
            epoch,
            stakes@,
            total_stake,
            timestamp,
            voter,
            is_vote,
            account_stake,
        ));
        let r = self.apply_vote(
            epoch,
            &stakes,
            total_stake,
            timestamp,
            account,
            is_vote,
            account_stake,
        );
        assert(outcome_is(
            after_vote(before, epoch, stakes@, total_stake, timestamp, voter, is_vote, account_stake),
            r,
            before,
            self@,
        ));
        r
    }

    /// The timestamp of when the voting finished; `None` while it has not ended.
    pub fn get_result(&self) -> (r: Option<u64>)
        ensures
            r == self@.result,
    {
        self.result
    }

    /// The total voted stake and the total validator stake, as the host reports it. The
    /// votes are not weighed anew: a `ping` may be needed first.
    pub fn get_total_voted_stake(&self) -> (r: (u128, u128))
        ensures
            r.0 == self@.total_voted_stake,
            reported_total_stake(r.1),
    {
        let total_stake = host::validator_total_stake();
        proof {
            host::lemma_reported_total_stake(total_stake);
        }
        (self.total_voted_stake, total_stake)
    }

    /// All active votes, in the order in which they were recorded. The votes are not
    /// weighed anew: a `ping` may be needed first.
    pub fn get_votes(&self) -> (r: Vec<(String, u128)>)
        ensures
            votes_view(r@) == self@.votes,
    {
        clone_votes(&self.votes)
    }
}

} // verus!
