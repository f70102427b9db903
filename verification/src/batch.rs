//! Batch operations over many repositories: the bookkeeping of a run that
//! switches every repository to its main branch or fetches every remote of
//! every repository, and the summary shown when it ends.
//!
//! The Git work itself is done by the caller, one repository at a time; it
//! reports each outcome here with `record_switch` or `record_fetch`.
use vstd::prelude::*;

use crate::models::RepoInfo;
use crate::text::{decimal, push_decimal, push_str};

verus! {

/// What a batch run does to each repository.
#[derive(Clone, Copy, Debug, PartialEq, Eq, Structural)]
pub enum BatchAction {
    Fetch,
    SwitchMain,
}

/// The repositories of one batch run and what is done to them.
pub struct BatchHost {
    paths: Vec<String>,
    action: BatchAction,
}

/// The running tally of a batch run: each processed repository with the
/// information read back from it afterwards, and the counts of successful
/// and failed operations and of repositories without remotes.
pub struct BatchResult {
    pub action: BatchAction,
    pub refreshed: Vec<(String, Option<RepoInfo>)>,
    pub succeeded: usize,
    pub failed: usize,
    pub skipped: usize,
}

impl BatchHost {
    pub fn new(paths: Vec<String>, action: BatchAction) -> (host: Self)
        ensures
            host.path_list() == paths@,
            host.batch_action() == action,
    {
        BatchHost { paths, action }
    }

    pub closed spec fn path_list(&self) -> Seq<String> {
        self.paths@
    }

    pub closed spec fn batch_action(&self) -> BatchAction {
        self.action
    }

    /// The repositories to process, in order.
    pub fn paths(&self) -> (paths: &Vec<String>)
        ensures
            paths@ == self.path_list(),
    {
        &self.paths
    }

    pub fn action(&self) -> (action: BatchAction)
        ensures
            action == self.batch_action(),
    {
        self.action
    }

    /// The tally before any repository has been processed.
    pub fn start(&self) -> (result: BatchResult)
        ensures
            result.action == self.batch_action(),
            result.refreshed@.len() == 0,
            result.succeeded == 0,
            result.failed == 0,
            result.skipped == 0,
    {
        BatchResult { action: self.action, refreshed: Vec::new(), succeeded: 0, failed: 0, skipped: 0 }
    }
}

/// How many of the outcomes are successes.
pub open spec fn count_true(outcomes: Seq<bool>) -> nat
    decreases outcomes.len(),
{
    if outcomes.len() == 0 {
        0
    } else {
        count_true(outcomes.drop_last()) + if outcomes.last() {
            1nat
        } else {
            0nat
        }
    }
}

pub proof fn lemma_count_true_bounded(outcomes: Seq<bool>)
    ensures
        count_true(outcomes) <= outcomes.len(),
    decreases outcomes.len(),
{
    if outcomes.len() > 0 {
        lemma_count_true_bounded(outcomes.drop_last());
    }
}

/// The summary of a batch run, before any pointer to the log.
pub open spec fn batch_summary(action: BatchAction, succeeded: nat, failed: nat, skipped: nat) -> Seq<char> {
    match action {
        BatchAction::SwitchMain => "Switch to Main: "@ + decimal(succeeded) + " succeeded, "@ + decimal(failed)
            + " failed"@,
        BatchAction::Fetch => "Fetch All: "@ + decimal(succeeded) + " succeeded, "@ + decimal(failed)
            + " failed, "@ + decimal(skipped) + " projects without remotes"@,
    }
}

/// The message shown when a batch run ends: the summary, followed by the
/// log's location when anything failed.
pub open spec fn batch_message(
    action: BatchAction,
    succeeded: nat,
    failed: nat,
    skipped: nat,
    log_path: Seq<char>,
) -> Seq<char> {
    if failed > 0 {
        batch_summary(action, succeeded, failed, skipped) + ". Log: "@ + log_path
    } else {
        batch_summary(action, succeeded, failed, skipped)
    }
}

impl BatchResult {
    /// Records one repository of a switch run: whether the switch
    /// succeeded, and what was read back from the repository afterwards.
    pub fn record_switch(&mut self, path: String, switched: bool, refreshed: Option<RepoInfo>)
        requires
            old(self).succeeded < usize::MAX,
            old(self).failed < usize::MAX,
        ensures
            final(self).action == old(self).action,
            final(self).refreshed@ == old(self).refreshed@.push((path, refreshed)),
            final(self).succeeded == old(self).succeeded + if switched { 1int } else { 0int },
            final(self).failed == old(self).failed + if switched { 0int } else { 1int },
            final(self).skipped == old(self).skipped,
    {
        if switched {
            self.succeeded = self.succeeded + 1;
        } else {
            self.failed = self.failed + 1;
        }
        self.refreshed.push((path, refreshed));
    }

    /// Records one repository of a fetch run: `None` when its remotes
    /// could not be listed (one failure), otherwise the outcome of fetching
    /// each remote; a repository without remotes counts as skipped.
    pub fn record_fetch(&mut self, path: String, fetched: Option<Vec<bool>>, refreshed: Option<RepoInfo>)
        requires
            match fetched {
                Some(outcomes) => old(self).succeeded + outcomes.len() <= usize::MAX && old(self).failed
                    + outcomes.len() <= usize::MAX && old(self).skipped < usize::MAX,
                None => old(self).failed < usize::MAX,
            },
        ensures
            final(self).action == old(self).action,
            final(self).refreshed@ == old(self).refreshed@.push((path, refreshed)),
            match fetched {
                Some(outcomes) => {
                    &&& final(self).succeeded == old(self).succeeded + count_true(outcomes@)
                    &&& final(self).failed == old(self).failed + (outcomes.len() - count_true(outcomes@))
                    &&& final(self).skipped == old(self).skipped + if outcomes.len() == 0 { 1int } else { 0int }
                },
                None => {
                    &&& final(self).succeeded == old(self).succeeded
                    &&& final(self).failed == old(self).failed + 1
                    &&& final(self).skipped == old(self).skipped
                },
            },
    {
        match fetched {
            Some(outcomes) => {
                if outcomes.len() == 0 {
                    self.skipped = self.skipped + 1;
                }
                let ghost s0 = self.succeeded;
                let ghost f0 = self.failed;
                let mut i: usize = 0;
                while i < outcomes.len()
                    invariant
                        i <= outcomes.len(),
                        s0 + outcomes.len() <= usize::MAX,
                        f0 + outcomes.len() <= usize::MAX,
                        self.succeeded == s0 + count_true(outcomes@.take(i as int)),
                        self.failed == f0 + (i - count_true(outcomes@.take(i as int))),
                        self.action == old(self).action,
                        self.refreshed@ == old(self).refreshed@,
                        self.skipped == old(self).skipped + if outcomes.len() == 0 { 1int } else { 0int },
                    decreases outcomes.len() - i,
                {
                    proof {
                        assert(outcomes@.take(i + 1).drop_last() == outcomes@.take(i as int));
                        lemma_count_true_bounded(outcomes@.take(i as int));
                    }
                    if outcomes[i] {
                        self.succeeded = self.succeeded + 1;
                    } else {
                        self.failed = self.failed + 1;
                    }
                    i = i + 1;
                }
                assert(outcomes@.take(outcomes.len() as int) == outcomes@);
            },
            None => {
                self.failed = self.failed + 1;
            },
        }
        self.refreshed.push((path, refreshed));
    }

    /// The message shown when the run ends; `log_path` is where failures
    /// were logged.
    pub fn message(&self, log_path: &str) -> (message: String)
        ensures
            message@ == batch_message(
                self.action,
                self.succeeded as nat,
                self.failed as nat,
                self.skipped as nat,
                log_path@,
            ),
    {
        let mut text = String::new();
        match self.action {
            BatchAction::SwitchMain => {
                push_str(&mut text, "Switch to Main: ");
                push_decimal(&mut text, self.succeeded as u64);
                push_str(&mut text, " succeeded, ");
                push_decimal(&mut text, self.failed as u64);
                push_str(&mut text, " failed");
            },
            BatchAction::Fetch => {
                push_str(&mut text, "Fetch All: ");
                push_decimal(&mut text, self.succeeded as u64);
                push_str(&mut text, " succeeded, ");
                push_decimal(&mut text, self.failed as u64);
                push_str(&mut text, " failed, ");
                push_decimal(&mut text, self.skipped as u64);
                push_str(&mut text, " projects without remotes");
            },
        }
        assert(text@ =~= batch_summary(self.action, self.succeeded as nat, self.failed as nat, self.skipped as nat));
        if self.failed > 0 {
            push_str(&mut text, ". Log: ");
            push_str(&mut text, log_path);
        }
        text
    }
}

} // verus!
