//! The mathematical model of the poll: its state as plain values, and each operation
//! as a function from the state and what the host reported to the next state.
use vstd::prelude::*;

verus! {

/// Why a call is refused. A refused call leaves the poll as it was.
#[derive(PartialEq, Eq, Structural, Debug, Clone, Copy)]
pub enum VotingError {
    /// The contract state is already stored, so it cannot be created again.
    AlreadyInitialized,
    /// The caller voted for unlocking but holds no validator stake.
    NotValidator,
    /// A stake sum, or twice the total validator stake, does not fit in a `u128`.
    Overflow,
}

/// One recorded vote: the voter's account id and the stake it votes with.
pub type VoteView = (Seq<char>, u128);

/// The state of the poll.
pub struct VotingView {
    /// The active votes, in the order in which they were recorded.
    pub votes: Seq<VoteView>,
    /// The stake that has voted so far.
    pub total_voted_stake: u128,
    /// When the voting ended; `None` while the poll is open.
    pub result: Option<u64>,
    /// The epoch in which the votes were last weighed.
    pub last_epoch_height: u64,
}

/// The sum of the stakes of `votes`.
pub open spec fn stake_sum(votes: Seq<VoteView>) -> nat
    decreases votes.len(),
{
    if votes.len() == 0 {
        0
    } else {
        stake_sum(votes.drop_last()) + votes.last().1 as nat
    }
}

/// The sum of `stakes`.
pub open spec fn stakes_total(stakes: Seq<u128>) -> nat
    decreases stakes.len(),
{
    if stakes.len() == 0 {
        0
    } else {
        stakes_total(stakes.drop_last()) + stakes.last() as nat
    }
}

/// The votes re-weighed by current stake: `stakes[i]` is the current stake of the
/// voter of `votes[i]`; voters whose stake is now zero drop out, the others keep their
/// place with their current stake.
pub open spec fn recount(votes: Seq<VoteView>, stakes: Seq<u128>) -> Seq<VoteView>
    recommends
        votes.len() == stakes.len(),
    decreases votes.len(),
{
    if votes.len() == 0 {
        seq![]
    } else {
        let earlier = recount(votes.drop_last(), stakes.drop_last());
        if stakes.last() > 0 {
            earlier.push((votes.last().0, stakes.last()))
        } else {
            earlier
        }
    }
}

/// `votes` without the votes of `account`.
pub open spec fn without(votes: Seq<VoteView>, account: Seq<char>) -> Seq<VoteView>
    decreases votes.len(),
{
    if votes.len() == 0 {
        seq![]
    } else {
        let earlier = without(votes.drop_last(), account);
        if votes.last().0 == account {
            earlier
        } else {
            earlier.push(votes.last())
        }
    }
}

/// The stake with which `account` votes in `votes` (zero where it has no vote).
pub open spec fn stake_of(votes: Seq<VoteView>, account: Seq<char>) -> nat
    decreases votes.len(),
{
    if votes.len() == 0 {
        0
    } else {
        stake_of(votes.drop_last(), account) + if votes.last().0 == account {
            votes.last().1 as nat
        } else {
            0
        }
    }
}

/// The votes as a map from account id to stake.
pub open spec fn votes_map(votes: Seq<VoteView>) -> Map<Seq<char>, u128>
    decreases votes.len(),
{
    if votes.len() == 0 {
        Map::empty()
    } else {
        votes_map(votes.drop_last()).insert(votes.last().0, votes.last().1)
    }
}

/// Whether `account` has a vote in `votes`.
pub open spec fn has_account(votes: Seq<VoteView>, account: Seq<char>) -> bool {
    exists|i: int| 0 <= i < votes.len() && #[trigger] votes[i].0 == account
}

/// No account votes twice.
pub open spec fn distinct_accounts(votes: Seq<VoteView>) -> bool {
    forall|i: int, j: int| 0 <= i < j < votes.len() ==> #[trigger] votes[i].0 != #[trigger] votes[j].0
}

/// Every vote carries stake.
pub open spec fn all_positive(votes: Seq<VoteView>) -> bool {
    forall|i: int| 0 <= i < votes.len() ==> #[trigger] votes[i].1 > 0
}

/// Whether `voted` stake is more than two thirds of `total_stake`, as the contract
/// computes it: `voted > 2 * total_stake / 3` in integer division.
pub open spec fn ends_voting(voted: u128, total_stake: u128) -> bool {
    voted > (2 * total_stake) / 3
}

impl VotingView {
    /// The state of a freshly created poll.
    pub open spec fn initial() -> VotingView {
        VotingView { votes: seq![], total_voted_stake: 0, result: None, last_epoch_height: 0 }
    }

    /// What every reachable state satisfies: each account votes at most once, with
    /// positive stake, and the total voted stake is the sum of the votes.
    pub open spec fn inv(self) -> bool {
        &&& distinct_accounts(self.votes)
        &&& all_positive(self.votes)
        &&& self.total_voted_stake == stake_sum(self.votes)
    }
}

/// Closing the poll when the voted stake passes two thirds of `total_stake`, recording
/// `timestamp`; refused where `2 * total_stake` overflows.
pub open spec fn check_result(v: VotingView, total_stake: u128, timestamp: u64) -> Result<
    VotingView,
    VotingError,
> {
    if 2 * total_stake > u128::MAX {
        Err(VotingError::Overflow)
    } else if ends_voting(v.total_voted_stake, total_stake) {
        Ok(VotingView { result: Some(timestamp), ..v })
    } else {
        Ok(v)
    }
}

/// A ping at epoch `epoch`: in a new epoch, every vote is re-weighed by the voter's
/// current stake (`stakes`, in vote order), the total is recomputed, the result is
/// checked against `total_stake`, and the epoch is recorded. In the same epoch nothing
/// changes.
pub open spec fn after_ping(
    v: VotingView,
    epoch: u64,
    stakes: Seq<u128>,
    total_stake: u128,
    timestamp: u64,
) -> Result<VotingView, VotingError> {
    if epoch == v.last_epoch_height {
        Ok(v)
    } else if stakes_total(stakes) > u128::MAX {
        Err(VotingError::Overflow)
    } else {
        let recounted = VotingView {
            votes: recount(v.votes, stakes),
            total_voted_stake: stakes_total(stakes) as u128,
            ..v
        };
        match check_result(recounted, total_stake, timestamp) {
            Ok(w) => Ok(VotingView { last_epoch_height: epoch, ..w }),
            Err(e) => Err(e),
        }
    }
}

/// `account` votes for (`is_vote`) with its stake `account_stake`, or withdraws its vote.
/// Nothing changes where the poll is closed. A vote for needs positive stake; it replaces
/// the account's earlier vote and may close the poll. A withdrawal removes the vote.
pub open spec fn after_cast(
    v: VotingView,
    account: Seq<char>,
    is_vote: bool,
    account_stake: u128,
    total_stake: u128,
    timestamp: u64,
) -> Result<VotingView, VotingError> {
    if v.result is Some {
        Ok(v)
    } else if is_vote && account_stake == 0 {
        Err(VotingError::NotValidator)
    } else {
        let stake: u128 = if is_vote {
            account_stake
        } else {
            0
        };
        if v.total_voted_stake + stake > u128::MAX {
            Err(VotingError::Overflow)
        } else {
            let rest = without(v.votes, account);
            let total = (v.total_voted_stake + stake - stake_of(v.votes, account)) as u128;
            if stake > 0 {
                check_result(
                    VotingView { votes: rest.push((account, stake)), total_voted_stake: total, ..v },
                    total_stake,
                    timestamp,
                )
            } else {
                Ok(VotingView { votes: rest, total_voted_stake: total, ..v })
            }
        }
    }
}

/// A vote: a ping at `epoch`, then the cast of `account`'s vote.
pub open spec fn after_vote(
    v: VotingView,
    epoch: u64,
    stakes: Seq<u128>,
    total_stake: u128,
    timestamp: u64,
    account: Seq<char>,
    is_vote: bool,
    account_stake: u128,
) -> Result<VotingView, VotingError> {
    match after_ping(v, epoch, stakes, total_stake, timestamp) {
        Ok(w) => after_cast(w, account, is_vote, account_stake, total_stake, timestamp),
        Err(e) => Err(e),
    }
}

/// A call that returned `r` and went from `before` to `after` did what `outcome` says:
/// on success it reached the state given, on refusal it returned the error and left
/// the state unchanged.
pub open spec fn outcome_is(
    outcome: Result<VotingView, VotingError>,
    r: Result<(), VotingError>,
    before: VotingView,
    after: VotingView,
) -> bool {
    match outcome {
        Ok(w) => r is Ok && after == w,
        Err(e) => r == Err::<(), VotingError>(e) && after == before,
    }
}

} // verus!
