//! Record of finished targets.
use std::collections::VecDeque;
use vstd::prelude::*;

use crate::counting::bumped;
use crate::model::{
    outcome_views, ManagedEndReason, ManagedOutcome, ManagedOutcomeView, ManagedTargetEndReason,
    ManagedTargetOutcome, OutcomeView,
};

verus! {

/// Outcomes of finished targets: counts of all of them and the most recent ones.
#[derive(Debug)]
pub struct OutcomeHistory {
    limit: usize,
    recent: VecDeque<ManagedTargetOutcome>,
    total: u64,
    successful: u64,
    failed: u64,
    peer_closed: u64,
    discarded: u64,
}

pub ghost struct HistoryView {
    pub limit: usize,
    pub recent: Seq<OutcomeView>,
    pub total: u64,
    pub successful: u64,
    pub failed: u64,
    pub peer_closed: u64,
    pub discarded: u64,
}

impl HistoryView {
    pub open spec fn empty(limit: usize) -> HistoryView {
        HistoryView {
            limit,
            recent: Seq::empty(),
            total: 0,
            successful: 0,
            failed: 0,
            peer_closed: 0,
            discarded: 0,
        }
    }

    /// The history with `outcome` added. Every outcome is counted. Only the
    /// last `limit` ones are retained.
    pub open spec fn recorded(self, outcome: OutcomeView) -> HistoryView {
        HistoryView {
            limit: self.limit,
            recent: if self.limit == 0 {
                self.recent
            } else if self.recent.len() == self.limit {
                self.recent.drop_first().push(outcome)
            } else {
                self.recent.push(outcome)
            },
            total: bumped(self.total),
            successful: if outcome.end_reason is Failed {
                self.successful
            } else {
                bumped(self.successful)
            },
            failed: if outcome.end_reason is Failed {
                bumped(self.failed)
            } else {
                self.failed
            },
            peer_closed: if outcome.end_reason is PeerClosed {
                bumped(self.peer_closed)
            } else {
                self.peer_closed
            },
            discarded: if self.limit == 0 || self.recent.len() == self.limit {
                bumped(self.discarded)
            } else {
                self.discarded
            },
        }
    }

    /// Counts and retained outcomes agree. Beyond `u64::MAX` outcomes the
    /// counts stop, and only the bound on what is retained still holds.
    pub open spec fn consistent(self) -> bool {
        &&& self.recent.len() <= self.limit
        &&& self.total < u64::MAX ==> {
            &&& self.total == self.successful + self.failed
            &&& self.total == self.discarded + self.recent.len()
            &&& self.peer_closed <= self.successful
        }
    }

    pub open spec fn outcome(
        self,
        end_reason: ManagedEndReason,
        applied_command_sequence: u64,
    ) -> ManagedOutcomeView {
        ManagedOutcomeView {
            end_reason,
            applied_command_sequence,
            total_target_outcomes: self.total,
            successful_target_outcomes: self.successful,
            failed_target_outcomes: self.failed,
            peer_closed_target_outcomes: self.peer_closed,
            discarded_target_outcomes: self.discarded,
            recent_target_outcomes: self.recent,
        }
    }
}

/// Evicting retained outcomes never disturbs the counts: they stay consistent
/// with every outcome that was recorded.
pub proof fn law_eviction_preserves_aggregates(history: HistoryView, outcome: OutcomeView)
    requires
        history.consistent(),
    ensures
        history.recorded(outcome).consistent(),
        history.recorded(outcome).total >= history.total,
        history.limit > 0 ==> history.recorded(outcome).recent.last() == outcome,
        HistoryView::empty(history.limit).consistent(),
{
}

impl HistoryView {
    /// The history after `outcomes` were recorded, in order.
    pub open spec fn recorded_all(self, outcomes: Seq<OutcomeView>) -> HistoryView
        decreases outcomes.len(),
    {
        if outcomes.len() == 0 {
            self
        } else {
            self.recorded_all(outcomes.drop_last()).recorded(outcomes.last())
        }
    }
}

/// The history retains the most recent outcomes, oldest first, as many as its
/// limit allows.
pub proof fn law_history_retains_most_recent(history: HistoryView, outcomes: Seq<OutcomeView>)
    requires
        history.recent.len() <= history.limit,
    ensures
        ({
            let all = history.recent + outcomes;
            let after = history.recorded_all(outcomes);
            &&& after.limit == history.limit
            &&& after.recent == (if all.len() <= history.limit {
                all
            } else {
                all.skip(all.len() - history.limit)
            })
        }),
    decreases outcomes.len(),
{
    let all = history.recent + outcomes;
    if outcomes.len() == 0 {
        assert(all =~= history.recent);
    } else {
        let rest = outcomes.drop_last();
        law_history_retains_most_recent(history, rest);
        let before = history.recent + rest;
        assert(all =~= before.push(outcomes.last()));
        let after = history.recorded_all(outcomes);
        if all.len() > history.limit {
            assert(after.recent =~= all.skip(all.len() - history.limit));
        }
    }
}

impl OutcomeHistory {
    pub closed spec fn view(&self) -> HistoryView {
        HistoryView {
            limit: self.limit,
            recent: outcome_views(self.recent@),
            total: self.total,
            successful: self.successful,
            failed: self.failed,
            peer_closed: self.peer_closed,
            discarded: self.discarded,
        }
    }

    pub fn new(limit: usize) -> (result: OutcomeHistory)
        ensures
            result@ == HistoryView::empty(limit),
    {
        let result = OutcomeHistory {
            limit,
            recent: VecDeque::new(),
            total: 0,
            successful: 0,
            failed: 0,
            peer_closed: 0,
            discarded: 0,
        };
        assert(result@.recent =~= Seq::<OutcomeView>::empty());
        result
    }

    pub fn record(&mut self, outcome: ManagedTargetOutcome)
        ensures
            final(self)@ == old(self)@.recorded(outcome@),
    {
        self.total = self.total.saturating_add(1);
        match &outcome.end_reason {
            ManagedTargetEndReason::Failed(_) => {
                self.failed = self.failed.saturating_add(1);
            },
            ManagedTargetEndReason::PeerClosed => {
                self.successful = self.successful.saturating_add(1);
                self.peer_closed = self.peer_closed.saturating_add(1);
            },
            ManagedTargetEndReason::TestComplete
            | ManagedTargetEndReason::NoTestComplete
            | ManagedTargetEndReason::Removed
            | ManagedTargetEndReason::Replaced
            | ManagedTargetEndReason::Stopped => {
                self.successful = self.successful.saturating_add(1);
            },
        }
        if self.limit == 0 {
            self.discarded = self.discarded.saturating_add(1);
            return;
        }
        if self.recent.len() == self.limit {
            let _ = self.recent.pop_front();
            self.discarded = self.discarded.saturating_add(1);
        }
        self.recent.push_back(outcome);
        assert(self@.recent =~= old(self)@.recorded(outcome@).recent);
    }

    /// Copies of the retained outcomes, oldest first.
    pub fn recent(&self) -> (result: Vec<ManagedTargetOutcome>)
        ensures
            outcome_views(result@) == self@.recent,
    {
        let mut result: Vec<ManagedTargetOutcome> = Vec::new();
        let mut i: usize = 0;
        while i < self.recent.len()
            invariant
                i <= self.recent@.len(),
                result@ == self.recent@.take(i as int),
            decreases self.recent@.len() - i,
        {
            result.push(self.recent[i].clone());
            assert(self.recent@.take(i as int).push(self.recent@[i as int]) =~= self.recent@.take(
                i as int + 1,
            ));
            i += 1;
        }
        assert(self.recent@.take(i as int) =~= self.recent@);
        result
    }

    pub fn outcome(&self, end_reason: ManagedEndReason, applied_command_sequence: u64) -> (result:
        ManagedOutcome)
        ensures
            result@ == self@.outcome(end_reason, applied_command_sequence),
    {
        ManagedOutcome {
            end_reason,
            applied_command_sequence,
            total_target_outcomes: self.total,
            successful_target_outcomes: self.successful,
            failed_target_outcomes: self.failed,
            peer_closed_target_outcomes: self.peer_closed,
            discarded_target_outcomes: self.discarded,
            recent_target_outcomes: self.recent(),
        }
    }

    pub fn total(&self) -> (result: u64)
        ensures
            result == self@.total,
    {
        self.total
    }

    pub fn successful(&self) -> (result: u64)
        ensures
            result == self@.successful,
    {
        self.successful
    }

    pub fn failed(&self) -> (result: u64)
        ensures
            result == self@.failed,
    {
        self.failed
    }

    pub fn peer_closed(&self) -> (result: u64)
        ensures
            result == self@.peer_closed,
    {
        self.peer_closed
    }

    pub fn discarded(&self) -> (result: u64)
        ensures
            result == self@.discarded,
    {
        self.discarded
    }
}

} // verus!
