//! Facts about the sequence functions of the model, proved by induction.
use vstd::prelude::*;

use crate::model::{
    after_cast, all_positive, distinct_accounts, has_account, recount, stake_of, stake_sum,
    stakes_total, votes_map, without, VoteView, VotingView,
};

verus! {

pub proof fn lemma_stake_sum_push(votes: Seq<VoteView>, vote: VoteView)
    ensures
        stake_sum(votes.push(vote)) == stake_sum(votes) + vote.1,
{
    assert(votes.push(vote).drop_last() =~= votes);
}

/// Summing a prefix one more element at a time, and a prefix sums to no more than
/// the whole.
pub proof fn lemma_stakes_total_prefix(stakes: Seq<u128>, i: int)
    requires
        0 <= i <= stakes.len(),
    ensures
        stakes_total(stakes.take(i)) <= stakes_total(stakes),
        i < stakes.len() ==> stakes_total(stakes.take(i + 1)) == stakes_total(stakes.take(i))
            + stakes[i],
    decreases stakes.len() - i,
{
    if i < stakes.len() {
        assert(stakes.take(i + 1).drop_last() =~= stakes.take(i));
        lemma_stakes_total_prefix(stakes, i + 1);
    } else {
        assert(stakes.take(i) =~= stakes);
    }
}

/// The same for the stakes of votes.
pub proof fn lemma_stake_sum_prefix(votes: Seq<VoteView>, i: int)
    requires
        0 <= i <= votes.len(),
    ensures
        stake_sum(votes.take(i)) <= stake_sum(votes),
        i < votes.len() ==> stake_sum(votes.take(i + 1)) == stake_sum(votes.take(i))
            + votes[i].1,
    decreases votes.len() - i,
{
    if i < votes.len() {
        assert(votes.take(i + 1).drop_last() =~= votes.take(i));
        lemma_stake_sum_prefix(votes, i + 1);
    } else {
        assert(votes.take(i) =~= votes);
    }
}

/// What a recount keeps: its sum is the sum of the current stakes, its stakes are
/// positive, its accounts are accounts of the old votes, and they stay distinct.
pub proof fn lemma_recount(votes: Seq<VoteView>, stakes: Seq<u128>)
    requires
        votes.len() == stakes.len(),
    ensures
        stake_sum(recount(votes, stakes)) == stakes_total(stakes),
        all_positive(recount(votes, stakes)),
        forall|j: int|
            0 <= j < recount(votes, stakes).len() ==> has_account(
                votes,
                #[trigger] recount(votes, stakes)[j].0,
            ),
        distinct_accounts(votes) ==> distinct_accounts(recount(votes, stakes)),
    decreases votes.len(),
{
    if votes.len() > 0 {
        let dl = votes.drop_last();
        let sdl = stakes.drop_last();
        lemma_recount(dl, sdl);
        let earlier = recount(dl, sdl);
        let n = votes.len() - 1;
        assert forall|j: int| 0 <= j < earlier.len() implies has_account(
            votes,
            #[trigger] earlier[j].0,
        ) by {
            let i = choose|i: int| 0 <= i < dl.len() && #[trigger] dl[i].0 == earlier[j].0;
            assert(votes[i].0 == earlier[j].0);
        }
        if stakes.last() > 0 {
            let r = earlier.push((votes.last().0, stakes.last()));
            lemma_stake_sum_push(earlier, (votes.last().0, stakes.last()));
            assert(r[earlier.len() as int].0 == votes[n].0);
            assert(forall|j: int| 0 <= j < earlier.len() ==> r[j] == earlier[j]);
            if distinct_accounts(votes) {
                assert forall|j: int| 0 <= j < earlier.len() implies earlier[j].0 != votes[n].0 by {
                    let i = choose|i: int| 0 <= i < dl.len() && #[trigger] dl[i].0 == earlier[j].0;
                    assert(votes[i].0 == dl[i].0);
                    assert(votes[i].0 != votes[n].0);
                }
                assert(distinct_accounts(dl));
            }
        } else {
            if distinct_accounts(votes) {
                assert(distinct_accounts(dl));
            }
        }
    }
}

/// With distinct accounts, a recount maps each voter with positive current stake to
/// that stake and drops the others.
pub proof fn lemma_recount_map(votes: Seq<VoteView>, stakes: Seq<u128>)
    requires
        votes.len() == stakes.len(),
        distinct_accounts(votes),
    ensures
        forall|i: int|
            0 <= i < votes.len() ==> {
                &&& stakes[i] > 0 ==> votes_map(recount(votes, stakes)).contains_key(
                    #[trigger] votes[i].0,
                ) && votes_map(recount(votes, stakes))[votes[i].0] == stakes[i]
                &&& stakes[i] == 0 ==> !votes_map(recount(votes, stakes)).contains_key(
                    votes[i].0,
                )
            },
        forall|account: Seq<char>|
            #[trigger] votes_map(recount(votes, stakes)).contains_key(account) ==> has_account(
                votes,
                account,
            ),
    decreases votes.len(),
{
    if votes.len() > 0 {
        let dl = votes.drop_last();
        let sdl = stakes.drop_last();
        let n = votes.len() - 1;
        assert(distinct_accounts(dl));
        lemma_recount_map(dl, sdl);
        lemma_recount(dl, sdl);
        let earlier = recount(dl, sdl);
        let k = votes[n].0;
        assert(!has_account(dl, k)) by {
            if has_account(dl, k) {
                let j = choose|j: int| 0 <= j < dl.len() && #[trigger] dl[j].0 == k;
                assert(votes[j].0 == k);
            }
        }
        lemma_votes_map(earlier, k);
        assert(!votes_map(earlier).contains_key(k)) by {
            if has_account(earlier, k) {
                let j = choose|j: int| 0 <= j < earlier.len() && #[trigger] earlier[j].0 == k;
                assert(has_account(dl, earlier[j].0));
            }
        }
        if stakes.last() > 0 {
            let r = earlier.push((k, stakes.last()));
            assert(r.drop_last() =~= earlier);
            assert(votes_map(r) == votes_map(earlier).insert(k, stakes.last()));
        }
        assert forall|i: int| 0 <= i < n implies #[trigger] votes[i].0 != k && dl[i] == votes[i]
            && sdl[i] == stakes[i] by {}
        assert forall|account: Seq<char>|
            #[trigger] votes_map(recount(votes, stakes)).contains_key(account) implies has_account(
            votes,
            account,
        ) by {
            if account == k {
                assert(votes[n].0 == account);
            } else {
                assert(votes_map(earlier).contains_key(account));
                let j = choose|j: int| 0 <= j < dl.len() && #[trigger] dl[j].0 == account;
                assert(votes[j].0 == account);
            }
        }
    }
}

/// What removing an account keeps: the sum drops by its stake, its account is gone,
/// the rest is a part of the old votes, and the map loses exactly that account.
pub proof fn lemma_without(votes: Seq<VoteView>, account: Seq<char>)
    ensures
        stake_sum(votes) == stake_sum(without(votes, account)) + stake_of(votes, account),
        all_positive(votes) ==> all_positive(without(votes, account)),
        forall|j: int|
            0 <= j < without(votes, account).len() ==> #[trigger] without(votes, account)[j].0
                != account,
        forall|j: int|
            0 <= j < without(votes, account).len() ==> has_account(
                votes,
                #[trigger] without(votes, account)[j].0,
            ),
        distinct_accounts(votes) ==> distinct_accounts(without(votes, account)),
        votes_map(without(votes, account)) == votes_map(votes).remove(account),
    decreases votes.len(),
{
    if votes.len() == 0 {
        assert(votes_map(votes).remove(account) =~= Map::empty());
    } else {
        let dl = votes.drop_last();
        let n = votes.len() - 1;
        lemma_without(dl, account);
        let earlier = without(dl, account);
        assert forall|j: int| 0 <= j < earlier.len() implies has_account(
            votes,
            #[trigger] earlier[j].0,
        ) by {
            let i = choose|i: int| 0 <= i < dl.len() && #[trigger] dl[i].0 == earlier[j].0;
            assert(votes[i].0 == earlier[j].0);
        }
        if all_positive(votes) {
            assert(all_positive(dl));
        }
        if distinct_accounts(votes) {
            assert(distinct_accounts(dl));
        }
        if votes.last().0 == account {
            assert(votes_map(votes).remove(account) =~= votes_map(dl).remove(account));
        } else {
            let r = earlier.push(votes.last());
            lemma_stake_sum_push(earlier, votes.last());
            assert(r[earlier.len() as int] == votes[n]);
            assert(forall|j: int| 0 <= j < earlier.len() ==> r[j] == earlier[j]);
            if distinct_accounts(votes) {
                assert forall|j: int| 0 <= j < earlier.len() implies earlier[j].0 != votes[n].0 by {
                    let i = choose|i: int| 0 <= i < dl.len() && #[trigger] dl[i].0 == earlier[j].0;
                    assert(votes[i].0 == dl[i].0);
                    assert(votes[i].0 != votes[n].0);
                }
            }
            assert(r.drop_last() =~= earlier);
            assert(votes_map(r) == votes_map(earlier).insert(votes.last().0, votes.last().1));
            assert(votes_map(r) =~= votes_map(votes).remove(account));
        }
    }
}

/// How a cast changes the map of votes: a withdrawal removes the account, a vote for
/// sets its stake, and a closed poll is left alone.
pub proof fn lemma_cast_map(
    p: VotingView,
    account: Seq<char>,
    is_vote: bool,
    account_stake: u128,
    total_stake: u128,
    timestamp: u64,
)
    ensures
        after_cast(p, account, is_vote, account_stake, total_stake, timestamp) matches Ok(w) ==> {
            &&& p.result is Some ==> w == p
            &&& p.result is None && !is_vote ==> votes_map(w.votes) == votes_map(p.votes).remove(
                account,
            )
            &&& p.result is None && is_vote ==> votes_map(w.votes) == votes_map(p.votes).insert(
                account,
                account_stake,
            )
        },
{
    lemma_without(p.votes, account);
    let rest = without(p.votes, account);
    let r = rest.push((account, account_stake));
    assert(r.drop_last() =~= rest);
    assert(votes_map(r) =~= votes_map(p.votes).insert(account, account_stake));
}

/// Where `account` has no vote, removing it changes nothing and its stake is zero.
pub proof fn lemma_without_absent(votes: Seq<VoteView>, account: Seq<char>)
    requires
        !has_account(votes, account),
    ensures
        without(votes, account) == votes,
        stake_of(votes, account) == 0,
    decreases votes.len(),
{
    if votes.len() > 0 {
        let dl = votes.drop_last();
        assert(!has_account(dl, account)) by {
            if has_account(dl, account) {
                let i = choose|i: int| 0 <= i < dl.len() && #[trigger] dl[i].0 == account;
                assert(votes[i].0 == account);
            }
        }
        lemma_without_absent(dl, account);
        assert(votes[votes.len() - 1].0 != account);
        assert(dl.push(votes.last()) =~= votes);
    }
}

/// With distinct accounts, removing the account of `votes[i]` removes exactly that
/// entry, and its stake is that entry's stake.
pub proof fn lemma_without_at(votes: Seq<VoteView>, i: int)
    requires
        distinct_accounts(votes),
        0 <= i < votes.len(),
    ensures
        without(votes, votes[i].0) == votes.remove(i),
        stake_of(votes, votes[i].0) == votes[i].1,
    decreases votes.len(),
{
    let account = votes[i].0;
    let dl = votes.drop_last();
    let n = votes.len() - 1;
    if i == n {
        assert(!has_account(dl, account)) by {
            if has_account(dl, account) {
                let k = choose|k: int| 0 <= k < dl.len() && #[trigger] dl[k].0 == account;
                assert(votes[k].0 == account);
            }
        }
        lemma_without_absent(dl, account);
        assert(votes.remove(i) =~= dl);
    } else {
        assert(distinct_accounts(dl));
        assert(dl[i] == votes[i]);
        lemma_without_at(dl, i);
        assert(votes[n].0 != account);
        assert(dl.remove(i).push(votes.last()) =~= votes.remove(i));
    }
}

/// With distinct accounts, the map holds an account's stake exactly where it votes.
pub proof fn lemma_votes_map(votes: Seq<VoteView>, account: Seq<char>)
    requires
        distinct_accounts(votes),
    ensures
        votes_map(votes).contains_key(account) == has_account(votes, account),
        has_account(votes, account) ==> votes_map(votes)[account] == stake_of(votes, account),
        !has_account(votes, account) ==> stake_of(votes, account) == 0,
    decreases votes.len(),
{
    if votes.len() > 0 {
        let dl = votes.drop_last();
        let n = votes.len() - 1;
        assert(distinct_accounts(dl));
        lemma_votes_map(dl, account);
        if votes[n].0 == account {
            assert(!has_account(dl, account)) by {
                if has_account(dl, account) {
                    let k = choose|k: int| 0 <= k < dl.len() && #[trigger] dl[k].0 == account;
                    assert(votes[k].0 == account);
                }
            }
            assert(has_account(votes, account));
        } else {
            if has_account(votes, account) {
                let k = choose|k: int| 0 <= k < votes.len() && #[trigger] votes[k].0 == account;
                assert(dl[k].0 == account);
            }
            if has_account(dl, account) {
                let k = choose|k: int| 0 <= k < dl.len() && #[trigger] dl[k].0 == account;
                assert(votes[k].0 == account);
            }
        }
    }
}

} // verus!
