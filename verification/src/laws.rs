//! What holds of the poll across all inputs and across calls.
use vstd::prelude::*;

use crate::contract::{ping_reads, vote_reads};
use crate::host::{
    reported_caller, reported_epoch_height, reported_timestamp, reported_total_stake,
    reported_validator_stake,
};
use crate::lemmas::{
    lemma_cast_map, lemma_recount, lemma_recount_map, lemma_stake_sum_push, lemma_without,
    lemma_without_absent,
};
use crate::model::{
    after_cast, after_ping, after_vote, distinct_accounts, ends_voting, has_account, outcome_is,
    recount, stake_of, stakes_total, votes_map, without, VotingError, VotingView,
};

verus! {

/// A ping keeps the invariant: every account votes at most once, with positive stake,
/// and the total voted stake is the sum of the votes.
pub proof fn ping_keeps_invariant(
    v: VotingView,
    epoch: u64,
    stakes: Seq<u128>,
    total_stake: u128,
    timestamp: u64,
)
    requires
        v.inv(),
        epoch != v.last_epoch_height ==> stakes.len() == v.votes.len(),
    ensures
        after_ping(v, epoch, stakes, total_stake, timestamp) matches Ok(w) ==> w.inv(),
{
    if epoch != v.last_epoch_height {
        lemma_recount(v.votes, stakes);
    }
}

/// Casting or withdrawing a vote keeps the invariant.
pub proof fn cast_keeps_invariant(
    v: VotingView,
    account: Seq<char>,
    is_vote: bool,
    account_stake: u128,
    total_stake: u128,
    timestamp: u64,
)
    requires
        v.inv(),
    ensures
        after_cast(v, account, is_vote, account_stake, total_stake, timestamp) matches Ok(w)
            ==> w.inv(),
{
    lemma_without(v.votes, account);
    let rest = without(v.votes, account);
    if is_vote && account_stake > 0 {
        let r = rest.push((account, account_stake));
        lemma_stake_sum_push(rest, (account, account_stake));
        assert(forall|j: int| 0 <= j < rest.len() ==> r[j] == rest[j]);
        assert(r[rest.len() as int].0 == account);
        assert(distinct_accounts(r));
    }
}

/// A vote keeps the invariant.
pub proof fn vote_keeps_invariant(
    v: VotingView,
    epoch: u64,
    stakes: Seq<u128>,
    total_stake: u128,
    timestamp: u64,
    account: Seq<char>,
    is_vote: bool,
    account_stake: u128,
)
    requires
        v.inv(),
        epoch != v.last_epoch_height ==> stakes.len() == v.votes.len(),
    ensures
        after_vote(v, epoch, stakes, total_stake, timestamp, account, is_vote, account_stake) matches Ok(
            w,
        ) ==> w.inv(),
{
    ping_keeps_invariant(v, epoch, stakes, total_stake, timestamp);
    if let Ok(w) = after_ping(v, epoch, stakes, total_stake, timestamp) {
        cast_keeps_invariant(w, account, is_vote, account_stake, total_stake, timestamp);
    }
}

/// The stake recorded for any account is at most the total voted stake.
pub proof fn recorded_stake_within_total(v: VotingView, account: Seq<char>)
    requires
        v.inv(),
    ensures
        stake_of(v.votes, account) <= v.total_voted_stake,
{
    lemma_without(v.votes, account);
}

/// A ping within the epoch of the last weighing changes nothing.
pub proof fn ping_in_same_epoch_changes_nothing(
    v: VotingView,
    stakes: Seq<u128>,
    total_stake: u128,
    timestamp: u64,
)
    ensures
        after_ping(v, v.last_epoch_height, stakes, total_stake, timestamp) == Ok::<
            VotingView,
            VotingError,
        >(v),
{
}

/// A second ping in the same epoch changes nothing, whatever the host then reports.
pub proof fn ping_is_idempotent(
    v: VotingView,
    epoch: u64,
    stakes: Seq<u128>,
    total_stake: u128,
    timestamp: u64,
    later_stakes: Seq<u128>,
    later_total_stake: u128,
    later_timestamp: u64,
)
    requires
        after_ping(v, epoch, stakes, total_stake, timestamp) is Ok,
    ensures
        ({
            let w = after_ping(v, epoch, stakes, total_stake, timestamp)->Ok_0;
            after_ping(w, epoch, later_stakes, later_total_stake, later_timestamp) == Ok::<
                VotingView,
                VotingError,
            >(w)
        }),
{
}

/// In a new epoch, a ping records each earlier voter with its current stake, drops the
/// voters whose stake is now zero, adds no one, and sets the total voted stake to the
/// sum of the current stakes.
pub proof fn ping_weighs_votes_by_current_stake(
    v: VotingView,
    epoch: u64,
    stakes: Seq<u128>,
    total_stake: u128,
    timestamp: u64,
)
    requires
        v.inv(),
        epoch != v.last_epoch_height,
        stakes.len() == v.votes.len(),
        after_ping(v, epoch, stakes, total_stake, timestamp) is Ok,
    ensures
        ({
            let w = after_ping(v, epoch, stakes, total_stake, timestamp)->Ok_0;
            &&& forall|i: int|
                0 <= i < v.votes.len() ==> {
                    &&& stakes[i] > 0 ==> votes_map(w.votes).contains_key(#[trigger] v.votes[i].0)
                        && votes_map(w.votes)[v.votes[i].0] == stakes[i]
                    &&& stakes[i] == 0 ==> !votes_map(w.votes).contains_key(v.votes[i].0)
                }
            &&& forall|account: Seq<char>|
                #[trigger] votes_map(w.votes).contains_key(account) ==> has_account(
                    v.votes,
                    account,
                )
            &&& w.total_voted_stake == stakes_total(stakes)
            &&& w.last_epoch_height == epoch
        }),
{
    lemma_recount_map(v.votes, stakes);
}

/// The voting ends only past two thirds: where a vote closes an open poll, the voted
/// stake is more than two thirds of the total stake, and the time recorded is the block
/// timestamp of that call.
pub proof fn voting_ends_only_past_two_thirds(
    v: VotingView,
    epoch: u64,
    stakes: Seq<u128>,
    total_stake: u128,
    timestamp: u64,
    account: Seq<char>,
    is_vote: bool,
    account_stake: u128,
)
    requires
        v.result is None,
        after_vote(v, epoch, stakes, total_stake, timestamp, account, is_vote, account_stake) is Ok,
    ensures
        ({
            let w = after_vote(
                v,
                epoch,
                stakes,
                total_stake,
                timestamp,
                account,
                is_vote,
                account_stake,
            )->Ok_0;
            w.result is Some ==> w.result == Some(timestamp) && ends_voting(
                w.total_voted_stake,
                total_stake,
            )
        }),
{
}

/// A vote for, with stake, closes an open poll exactly when the voted stake it leaves
/// is more than two thirds of the total stake.
pub proof fn vote_for_closes_exactly_past_two_thirds(
    v: VotingView,
    epoch: u64,
    stakes: Seq<u128>,
    total_stake: u128,
    timestamp: u64,
    account: Seq<char>,
    account_stake: u128,
)
    requires
        v.result is None,
        account_stake > 0,
        after_vote(v, epoch, stakes, total_stake, timestamp, account, true, account_stake) is Ok,
    ensures
        ({
            let w = after_vote(
                v,
                epoch,
                stakes,
                total_stake,
                timestamp,
                account,
                true,
                account_stake,
            )->Ok_0;
            w.result is Some <==> ends_voting(w.total_voted_stake, total_stake)
        }),
{
}

/// Within an epoch, a vote for with stake that fits records exactly that stake for the
/// account, replacing its earlier vote, and moves the total by the difference.
pub proof fn vote_records_stake(
    v: VotingView,
    stakes: Seq<u128>,
    total_stake: u128,
    timestamp: u64,
    account: Seq<char>,
    account_stake: u128,
)
    requires
        v.inv(),
        v.result is None,
        account_stake > 0,
        v.total_voted_stake + account_stake <= u128::MAX,
        2 * total_stake <= u128::MAX,
    ensures
        ({
            let r = after_vote(
                v,
                v.last_epoch_height,
                stakes,
                total_stake,
                timestamp,
                account,
                true,
                account_stake,
            );
            &&& r is Ok
            &&& votes_map(r->Ok_0.votes) == votes_map(v.votes).insert(account, account_stake)
            &&& r->Ok_0.total_voted_stake == v.total_voted_stake - stake_of(v.votes, account)
                + account_stake
        }),
{
    lemma_without(v.votes, account);
    let rest = without(v.votes, account);
    let r = rest.push((account, account_stake));
    assert(r.drop_last() =~= rest);
    assert(votes_map(r) =~= votes_map(v.votes).insert(account, account_stake));
}

/// Within an epoch, withdrawing removes the account's vote and its stake from the total,
/// and is never refused.
pub proof fn withdrawal_removes_vote(
    v: VotingView,
    stakes: Seq<u128>,
    total_stake: u128,
    timestamp: u64,
    account: Seq<char>,
    account_stake: u128,
)
    requires
        v.inv(),
        v.result is None,
    ensures
        ({
            let r = after_vote(
                v,
                v.last_epoch_height,
                stakes,
                total_stake,
                timestamp,
                account,
                false,
                account_stake,
            );
            &&& r is Ok
            &&& votes_map(r->Ok_0.votes) == votes_map(v.votes).remove(account)
            &&& r->Ok_0.total_voted_stake == v.total_voted_stake - stake_of(v.votes, account)
            &&& r->Ok_0.result is None
        }),
{
    lemma_without(v.votes, account);
}

/// Within an epoch, a withdrawal undoes a vote for that left the poll open: the votes
/// and the total are as if the account had withdrawn straight away.
pub proof fn withdrawal_undoes_vote(
    v: VotingView,
    stakes: Seq<u128>,
    total_stake: u128,
    timestamp: u64,
    account: Seq<char>,
    account_stake: u128,
    later_total_stake: u128,
    later_timestamp: u64,
    withdrawn_stake: u128,
)
    requires
        v.inv(),
        v.result is None,
        after_vote(
            v,
            v.last_epoch_height,
            stakes,
            total_stake,
            timestamp,
            account,
            true,
            account_stake,
        ) is Ok,
        after_vote(
            v,
            v.last_epoch_height,
            stakes,
            total_stake,
            timestamp,
            account,
            true,
            account_stake,
        )->Ok_0.result is None,
    ensures
        ({
            let w1 = after_vote(
                v,
                v.last_epoch_height,
                stakes,
                total_stake,
                timestamp,
                account,
                true,
                account_stake,
            )->Ok_0;
            let r2 = after_vote(
                w1,
                w1.last_epoch_height,
                stakes,
                later_total_stake,
                later_timestamp,
                account,
                false,
                withdrawn_stake,
            );
            &&& r2 is Ok
            &&& votes_map(r2->Ok_0.votes) == votes_map(v.votes).remove(account)
            &&& r2->Ok_0.total_voted_stake == v.total_voted_stake - stake_of(v.votes, account)
        }),
{
    let w1 = after_vote(
        v,
        v.last_epoch_height,
        stakes,
        total_stake,
        timestamp,
        account,
        true,
        account_stake,
    )->Ok_0;
    lemma_without(v.votes, account);
    let rest = without(v.votes, account);
    let r = rest.push((account, account_stake));
    assert(r.drop_last() =~= rest);
    vote_keeps_invariant(
        v,
        v.last_epoch_height,
        stakes,
        total_stake,
        timestamp,
        account,
        true,
        account_stake,
    );
    lemma_without(w1.votes, account);
    assert(votes_map(r).remove(account) =~= votes_map(v.votes).remove(account));
    assert(!has_account(rest, account));
    lemma_without_absent(rest, account);
    assert(stake_of(r, account) == stake_of(rest, account) + account_stake);
}

/// Within an epoch, voting again with the same stake counts once: the votes and the
/// total stay as they were, and the poll stays open.
pub proof fn repeated_vote_counts_once(
    v: VotingView,
    stakes: Seq<u128>,
    total_stake: u128,
    timestamp: u64,
    account: Seq<char>,
    account_stake: u128,
    later_timestamp: u64,
)
    requires
        v.inv(),
        v.result is None,
        after_vote(
            v,
            v.last_epoch_height,
            stakes,
            total_stake,
            timestamp,
            account,
            true,
            account_stake,
        ) is Ok,
        after_vote(
            v,
            v.last_epoch_height,
            stakes,
            total_stake,
            timestamp,
            account,
            true,
            account_stake,
        )->Ok_0.result is None,
    ensures
        ({
            let w1 = after_vote(
                v,
                v.last_epoch_height,
                stakes,
                total_stake,
                timestamp,
                account,
                true,
                account_stake,
            )->Ok_0;
            let r2 = after_vote(
                w1,
                w1.last_epoch_height,
                stakes,
                total_stake,
                later_timestamp,
                account,
                true,
                account_stake,
            );
            &&& r2 is Ok
            &&& votes_map(r2->Ok_0.votes) == votes_map(w1.votes)
            &&& r2->Ok_0.total_voted_stake == w1.total_voted_stake
            &&& r2->Ok_0.result is None
        }),
{
    let w1 = after_vote(
        v,
        v.last_epoch_height,
        stakes,
        total_stake,
        timestamp,
        account,
        true,
        account_stake,
    )->Ok_0;
    lemma_without(v.votes, account);
    let rest = without(v.votes, account);
    let r = rest.push((account, account_stake));
    assert(r.drop_last() =~= rest);
    assert(!has_account(rest, account));
    lemma_without_absent(rest, account);
    assert(stake_of(r, account) == stake_of(rest, account) + account_stake);
    vote_keeps_invariant(
        v,
        v.last_epoch_height,
        stakes,
        total_stake,
        timestamp,
        account,
        true,
        account_stake,
    );
    lemma_without(w1.votes, account);
    let rest2 = without(w1.votes, account);
    let r2 = rest2.push((account, account_stake));
    assert(r2.drop_last() =~= rest2);
    assert(votes_map(r2) =~= votes_map(w1.votes).remove(account).insert(account, account_stake));
    assert(votes_map(w1.votes) =~= votes_map(rest).insert(account, account_stake));
    assert(votes_map(r2) =~= votes_map(w1.votes));
}

/// Host-bound: a `ping` that succeeds records the epoch the host reported; in a new
/// epoch, every earlier voter keeps a vote exactly when the host reports positive
/// current stake for it, and then with that stake, and no one else gains a vote; in the
/// same epoch nothing changes.
pub proof fn ping_weighs_votes_by_host_stake(
    v: VotingView,
    w: VotingView,
    r: Result<(), VotingError>,
    epoch: u64,
    stakes: Seq<u128>,
    total_stake: u128,
    timestamp: u64,
)
    requires
        v.inv(),
        ping_reads(v, epoch, stakes, total_stake, timestamp),
        outcome_is(after_ping(v, epoch, stakes, total_stake, timestamp), r, v, w),
        r is Ok,
    ensures
        reported_epoch_height(w.last_epoch_height),
        w.last_epoch_height == v.last_epoch_height ==> w == v,
        w.last_epoch_height != v.last_epoch_height ==> {
            &&& forall|i: int|
                #![trigger v.votes[i]]
                0 <= i < v.votes.len() ==> {
                    &&& reported_validator_stake(v.votes[i].0, stakes[i])
                    &&& stakes[i] > 0 ==> votes_map(w.votes).contains_key(v.votes[i].0)
                        && votes_map(w.votes)[v.votes[i].0] == stakes[i]
                    &&& stakes[i] == 0 ==> !votes_map(w.votes).contains_key(v.votes[i].0)
                }
            &&& forall|account: Seq<char>|
                #[trigger] votes_map(w.votes).contains_key(account) ==> has_account(
                    v.votes,
                    account,
                )
        },
{
    if epoch != v.last_epoch_height {
        lemma_recount_map(v.votes, stakes);
        assert(w.votes == recount(v.votes, stakes));
        assert forall|i: int| #![trigger v.votes[i]] 0 <= i < v.votes.len() implies {
            &&& reported_validator_stake(v.votes[i].0, stakes[i])
            &&& stakes[i] > 0 ==> votes_map(w.votes).contains_key(v.votes[i].0)
                && votes_map(w.votes)[v.votes[i].0] == stakes[i]
            &&& stakes[i] == 0 ==> !votes_map(w.votes).contains_key(v.votes[i].0)
        } by {
            assert(reported_validator_stake(v.votes[i].0, stakes[i]));
        }
        assert forall|account: Seq<char>|
            #[trigger] votes_map(w.votes).contains_key(account) implies has_account(
            v.votes,
            account,
        ) by {
            assert(votes_map(recount(v.votes, stakes)).contains_key(account));
        }
    }
}

/// Host-bound: where a `ping` closes the poll, the result recorded is a block timestamp
/// the host reported, and the voted stake passed two thirds of a total stake the host
/// reported.
pub proof fn ping_closes_at_host_timestamp(
    v: VotingView,
    w: VotingView,
    r: Result<(), VotingError>,
    epoch: u64,
    stakes: Seq<u128>,
    total_stake: u128,
    timestamp: u64,
)
    requires
        v.result is None,
        ping_reads(v, epoch, stakes, total_stake, timestamp),
        outcome_is(after_ping(v, epoch, stakes, total_stake, timestamp), r, v, w),
    ensures
        w.result matches Some(t) ==> reported_timestamp(t) && reported_total_stake(total_stake)
            && ends_voting(w.total_voted_stake, total_stake),
{
}

/// Host-bound: where a `vote` closes the poll, the result recorded is a block timestamp
/// the host reported, and the voted stake passed two thirds of a total stake the host
/// reported.
pub proof fn vote_closes_at_host_timestamp(
    v: VotingView,
    w: VotingView,
    r: Result<(), VotingError>,
    epoch: u64,
    stakes: Seq<u128>,
    total_stake: u128,
    timestamp: u64,
    account: Seq<char>,
    is_vote: bool,
    account_stake: u128,
)
    requires
        v.result is None,
        vote_reads(v, epoch, stakes, total_stake, timestamp, account, is_vote, account_stake),
        outcome_is(
            after_vote(v, epoch, stakes, total_stake, timestamp, account, is_vote, account_stake),
            r,
            v,
            w,
        ),
    ensures
        w.result matches Some(t) ==> reported_timestamp(t) && reported_total_stake(total_stake)
            && ends_voting(w.total_voted_stake, total_stake),
{
}

/// Host-bound: a `vote` in an epoch other than that of the last weighing first weighs
/// the earlier votes anew: it records the epoch the host reported, and every earlier
/// voter other than the caller keeps a vote exactly when the host reports positive
/// current stake for it, and then with that stake.
pub proof fn vote_in_new_epoch_weighs_earlier_votes(
    v: VotingView,
    w: VotingView,
    r: Result<(), VotingError>,
    epoch: u64,
    stakes: Seq<u128>,
    total_stake: u128,
    timestamp: u64,
    account: Seq<char>,
    is_vote: bool,
    account_stake: u128,
)
    requires
        v.inv(),
        v.result is None,
        epoch != v.last_epoch_height,
        vote_reads(v, epoch, stakes, total_stake, timestamp, account, is_vote, account_stake),
        outcome_is(
            after_vote(v, epoch, stakes, total_stake, timestamp, account, is_vote, account_stake),
            r,
            v,
            w,
        ),
        r is Ok,
    ensures
        reported_epoch_height(w.last_epoch_height),
        w.last_epoch_height != v.last_epoch_height,
        forall|i: int|
            #![trigger v.votes[i]]
            0 <= i < v.votes.len() && v.votes[i].0 != account ==> {
                &&& reported_validator_stake(v.votes[i].0, stakes[i])
                &&& stakes[i] > 0 ==> votes_map(w.votes).contains_key(v.votes[i].0)
                    && votes_map(w.votes)[v.votes[i].0] == stakes[i]
                &&& stakes[i] == 0 ==> !votes_map(w.votes).contains_key(v.votes[i].0)
            },
{
    lemma_recount_map(v.votes, stakes);
    let p = after_ping(v, epoch, stakes, total_stake, timestamp)->Ok_0;
    lemma_cast_map(p, account, is_vote, account_stake, total_stake, timestamp);
    assert forall|i: int|
        #![trigger v.votes[i]]
        0 <= i < v.votes.len() && v.votes[i].0 != account implies {
            &&& reported_validator_stake(v.votes[i].0, stakes[i])
            &&& stakes[i] > 0 ==> votes_map(w.votes).contains_key(v.votes[i].0)
                && votes_map(w.votes)[v.votes[i].0] == stakes[i]
            &&& stakes[i] == 0 ==> !votes_map(w.votes).contains_key(v.votes[i].0)
        } by {
        assert(reported_validator_stake(v.votes[i].0, stakes[i]));
    }
}

/// Host-bound: a withdrawal takes out the vote of the calling account the host reported
/// and nothing else: within the epoch of the last weighing the votes lose exactly that
/// account and the total loses exactly its stake; in any epoch, the caller has no vote
/// afterwards unless the weighing closed the poll.
pub proof fn withdrawal_removes_the_callers_vote(
    v: VotingView,
    w: VotingView,
    r: Result<(), VotingError>,
    epoch: u64,
    stakes: Seq<u128>,
    total_stake: u128,
    timestamp: u64,
    account: Seq<char>,
    account_stake: u128,
)
    requires
        v.inv(),
        v.result is None,
        vote_reads(v, epoch, stakes, total_stake, timestamp, account, false, account_stake),
        outcome_is(
            after_vote(v, epoch, stakes, total_stake, timestamp, account, false, account_stake),
            r,
            v,
            w,
        ),
        r is Ok,
    ensures
        reported_caller(account),
        w.result is None ==> !votes_map(w.votes).contains_key(account),
        epoch == v.last_epoch_height ==> {
            &&& votes_map(w.votes) == votes_map(v.votes).remove(account)
            &&& w.total_voted_stake == v.total_voted_stake - stake_of(v.votes, account)
        },
{
    lemma_without(v.votes, account);
    let p = after_ping(v, epoch, stakes, total_stake, timestamp)->Ok_0;
    lemma_cast_map(p, account, false, account_stake, total_stake, timestamp);
}

} // verus!
