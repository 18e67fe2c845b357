//! The decisions of a catalogue refresh: which accounts a full refresh visits and how it
//! tallies them, and when a failed model listing is retried after a token refresh.

use vstd::prelude::*;
use crate::text::{contains_text, text_contains};

verus! {

/// An entry of the credential snapshot, as far as a refresh reads it.
#[derive(Clone, Copy, Debug, PartialEq, Eq)]
pub struct AccountEntry {
    pub id: u64,
    pub disabled: bool,
}

/// The ids of the enabled entries, in snapshot order.
pub open spec fn enabled_ids(entries: Seq<AccountEntry>) -> Seq<u64>
    decreases entries.len(),
{
    if entries.len() == 0 {
        Seq::empty()
    } else {
        let rest = enabled_ids(entries.drop_last());
        if entries.last().disabled {
            rest
        } else {
            rest.push(entries.last().id)
        }
    }
}

/// A full refresh visits exactly the entries that are not disabled, in snapshot order.
pub proof fn lemma_enabled_ids(entries: Seq<AccountEntry>)
    ensures
        enabled_ids(entries) == entries.filter(|e: AccountEntry| !e.disabled).map_values(|e: AccountEntry| e.id),
    decreases entries.len(),
{
    reveal(Seq::filter);
    if entries.len() > 0 {
        lemma_enabled_ids(entries.drop_last());
        let kept = entries.drop_last().filter(|e: AccountEntry| !e.disabled);
        if !entries.last().disabled {
            assert(kept.push(entries.last()).map_values(|e: AccountEntry| e.id)
                =~= kept.map_values(|e: AccountEntry| e.id).push(entries.last().id));
        }
    }
}

/// How many outcomes are successes.
pub open spec fn count_succeeded(outcomes: Seq<bool>) -> nat
    decreases outcomes.len(),
{
    if outcomes.len() == 0 {
        0
    } else {
        count_succeeded(outcomes.drop_last()) + if outcomes.last() {
            1nat
        } else {
            0nat
        }
    }
}

/// How many outcomes are failures.
pub open spec fn count_failed(outcomes: Seq<bool>) -> nat
    decreases outcomes.len(),
{
    if outcomes.len() == 0 {
        0
    } else {
        count_failed(outcomes.drop_last()) + if outcomes.last() {
            0nat
        } else {
            1nat
        }
    }
}

/// Every account a full refresh visits is counted once, as refreshed or as failed.
pub proof fn lemma_tally_adds_up(outcomes: Seq<bool>)
    ensures
        count_succeeded(outcomes) + count_failed(outcomes) == outcomes.len(),
    decreases outcomes.len(),
{
    if outcomes.len() > 0 {
        lemma_tally_adds_up(outcomes.drop_last());
    }
}

/// The refreshed count is the number of successful outcomes and the failed count the number
/// of failed ones; so a run whose outcomes are all successes tallies every visit as
/// refreshed and none as failed.
pub proof fn lemma_tally_counts(outcomes: Seq<bool>)
    ensures
        count_succeeded(outcomes) == outcomes.filter(|b: bool| b).len(),
        count_failed(outcomes) == outcomes.filter(|b: bool| !b).len(),
        (forall|i: int| 0 <= i < outcomes.len() ==> #[trigger] outcomes[i]) ==> {
            &&& count_succeeded(outcomes) == outcomes.len()
            &&& count_failed(outcomes) == 0
        },
        (forall|i: int| 0 <= i < outcomes.len() ==> !#[trigger] outcomes[i]) ==> {
            &&& count_succeeded(outcomes) == 0
            &&& count_failed(outcomes) == outcomes.len()
        },
    decreases outcomes.len(),
{
    reveal(Seq::filter);
    if outcomes.len() > 0 {
        let rest = outcomes.drop_last();
        lemma_tally_counts(rest);
        assert forall|i: int| 0 <= i < rest.len() implies rest[i] == outcomes[i] by {}
        assert(outcomes.last() == outcomes[outcomes.len() - 1]);
    }
}

/// Recording an outcome adds one to exactly one side of the tally: a success to the
/// refreshed count, a failure to the failed count.
pub proof fn lemma_tally_step(outcomes: Seq<bool>, succeeded: bool)
    ensures
        count_succeeded(outcomes.push(succeeded)) == count_succeeded(outcomes) + if succeeded { 1int } else { 0int },
        count_failed(outcomes.push(succeeded)) == count_failed(outcomes) + if succeeded { 0int } else { 1int },
{
    assert(outcomes.push(succeeded).drop_last() =~= outcomes);
}

/// A full refresh in progress: the enabled accounts to visit, in order, and the outcome of
/// each account visited so far.
pub struct RefreshAllRun {
    accounts: Vec<u64>,
    outcomes: Vec<bool>,
}

impl RefreshAllRun {
    /// The accounts the refresh visits.
    pub closed spec fn accounts_view(&self) -> Seq<u64> {
        self.accounts@
    }

    /// The outcomes recorded so far, one per visited account.
    pub closed spec fn outcomes_view(&self) -> Seq<bool> {
        self.outcomes@
    }

    /// No more outcomes than accounts.
    pub closed spec fn wf(&self) -> bool {
        self.outcomes@.len() <= self.accounts@.len()
    }

    /// A refresh over the enabled entries of a credential snapshot.
    pub fn start(entries: &Vec<AccountEntry>) -> (r: RefreshAllRun)
        ensures
            r.wf(),
            r.accounts_view() == enabled_ids(entries@),
            r.accounts_view() == entries@.filter(|e: AccountEntry| !e.disabled).map_values(|e: AccountEntry| e.id),
            r.outcomes_view() == Seq::<bool>::empty(),
    {
        proof {
            lemma_enabled_ids(entries@);
        }
        let mut accounts: Vec<u64> = Vec::new();
        let n = entries.len();
        let mut i: usize = 0;
        while i < n
            invariant
                n == entries@.len(),
                i <= n,
                accounts@ == enabled_ids(entries@.subrange(0, i as int)),
            decreases n - i,
        {
            assert(entries@.subrange(0, i as int + 1).drop_last() =~= entries@.subrange(0, i as int));
            if !entries[i].disabled {
                accounts.push(entries[i].id);
            }
            i = i + 1;
        }
        assert(entries@.subrange(0, n as int) =~= entries@);
        RefreshAllRun { accounts, outcomes: Vec::new() }
    }

    /// The next account to refresh, or `None` when every account has been visited.
    pub fn next_account(&self) -> (r: Option<u64>)
        requires
            self.wf(),
        ensures
            r == if self.outcomes_view().len() < self.accounts_view().len() {
                Some(self.accounts_view()[self.outcomes_view().len() as int])
            } else {
                None::<u64>
            },
    {
        if self.outcomes.len() < self.accounts.len() {
            Some(self.accounts[self.outcomes.len()])
        } else {
            None
        }
    }

    /// Records whether the account returned by `next_account` was refreshed.
    pub fn record(&mut self, succeeded: bool)
        requires
            old(self).wf(),
            old(self).outcomes_view().len() < old(self).accounts_view().len(),
        ensures
            final(self).wf(),
            final(self).accounts_view() == old(self).accounts_view(),
            final(self).outcomes_view() == old(self).outcomes_view().push(succeeded),
    {
        self.outcomes.push(succeeded);
    }

    /// The tally so far: accounts refreshed, and accounts that failed.
    pub fn totals(&self) -> (r: (usize, usize))
        requires
            self.wf(),
        ensures
            r.0 == count_succeeded(self.outcomes_view()),
            r.1 == count_failed(self.outcomes_view()),
            r.0 == self.outcomes_view().filter(|b: bool| b).len(),
            r.1 == self.outcomes_view().filter(|b: bool| !b).len(),
    {
        proof {
            lemma_tally_counts(self.outcomes@);
        }
        let mut ok: usize = 0;
        let mut failed: usize = 0;
        let n = self.outcomes.len();
        let mut i: usize = 0;
        while i < n
            invariant
                n == self.outcomes@.len(),
                i <= n,
                ok == count_succeeded(self.outcomes@.subrange(0, i as int)),
                failed == count_failed(self.outcomes@.subrange(0, i as int)),
            decreases n - i,
        {
            proof {
                lemma_tally_adds_up(self.outcomes@.subrange(0, i as int));
                assert(self.outcomes@.subrange(0, i as int + 1).drop_last() =~= self.outcomes@.subrange(0, i as int));
            }
            if self.outcomes[i] {
                ok = ok + 1;
            } else {
                failed = failed + 1;
            }
            i = i + 1;
        }
        assert(self.outcomes@.subrange(0, n as int) =~= self.outcomes@);
        (ok, failed)
    }
}

/// Which listing of an account's models failed.
#[derive(Clone, Copy, Debug, PartialEq, Eq)]
pub enum ListAttempt {
    /// The listing with the credentials as they were.
    First,
    /// The listing after the account's token was force-refreshed.
    AfterTokenRefresh,
}

/// What an account refresh does after a failed model listing.
#[derive(Clone, Copy, Debug, PartialEq, Eq)]
pub enum AfterListFailure {
    /// Force-refresh the account's token, then list once more.
    RefreshTokenAndRetry,
    /// Fail with the listing's error.
    GiveUp,
}

/// An error message that reports a rejected token: it mentions "403" or "Forbidden".
pub open spec fn is_token_rejection(message: Seq<char>) -> bool {
    contains_text(message, "403"@) || contains_text(message, "Forbidden"@)
}

/// Whether an error message reports a rejected token.
pub fn token_rejected(message: &str) -> (r: bool)
    ensures
        r == is_token_rejection(message@),
{
    text_contains(message, "403") || text_contains(message, "Forbidden")
}

/// The decision after a failed model listing: the first listing of an OAuth credential is
/// retried after a token refresh when its error reports a rejected token; every other
/// failure is final, and an API-key credential, which has no token to refresh, never retries.
pub fn after_list_failure(attempt: ListAttempt, is_api_key: bool, message: &str) -> (r: AfterListFailure)
    ensures
        r == match attempt {
            ListAttempt::First => if !is_api_key && is_token_rejection(message@) {
                AfterListFailure::RefreshTokenAndRetry
            } else {
                AfterListFailure::GiveUp
            },
            ListAttempt::AfterTokenRefresh => AfterListFailure::GiveUp,
        },
{
    match attempt {
        ListAttempt::First => if !is_api_key && token_rejected(message) {
            AfterListFailure::RefreshTokenAndRetry
        } else {
            AfterListFailure::GiveUp
        },
        ListAttempt::AfterTokenRefresh => AfterListFailure::GiveUp,
    }
}

} // verus!
