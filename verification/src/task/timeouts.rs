//! Bounded expiration of due probes, fair among targets.
//!
//! One pass looks at a bounded number of targets, lists those with a due
//! probe, and then expires a bounded number of probes, one per listed target
//! in turn. A target that still has a due probe goes to the end of the list.
use vstd::prelude::*;

use crate::ring::lemma_ring_step;
use crate::task::drive_view::{in_backlog, overdue};
use crate::task::state::ManagedClientTask;
use crate::task::target::{ClientFacts, TargetState, TimeoutPoll};
use crate::task::view::{
    lemma_expired_frame, Cursors, TaskView, TimeoutBacklogEntry, TIMEOUT_WORK_BUDGET,
};
use crate::timing::Instant;

verus! {

impl ManagedClientTask {
    /// Whether a probe of the target at `index` is due.
    fn is_overdue(&self, index: usize, now: Instant) -> (result: bool)
        requires
            index < self@.targets.len(),
        ensures
            result == overdue(self@.targets[index as int], now),
    {
        let next = match &self.target(index).state {
            TargetState::Active { facts } => facts.next_probe_timeout,
            TargetState::Draining { facts, .. } => facts.next_probe_timeout,
            _ => None,
        };
        match next {
            Some(deadline) => deadline.nanos <= now.nanos,
            None => false,
        }
    }

    fn backlog_names(&self, index: usize, generation: u64) -> (result: bool)
        ensures
            result == in_backlog(self@.timeout_backlog, index as int, generation),
    {
        let mut i: usize = 0;
        while i < self.timeout_backlog_len()
            invariant
                i <= self@.timeout_backlog.len(),
                forall|j: int|
                    0 <= j < i ==> !((#[trigger] self@.timeout_backlog[j]).index == index
                        && self@.timeout_backlog[j].generation == generation),
            decreases self@.timeout_backlog.len() - i,
        {
            let entry = self.timeout_backlog_entry(i);
            if entry.index == index && entry.generation == generation {
                return true;
            }
            i += 1;
        }
        false
    }

    /// Starts a pass: grants it a budget and looks for targets with due probes.
    pub fn begin_timeout_pass(&mut self, now: Instant)
        ensures
            final(self)@ == old(self)@.discovered(old(self)@.inspections(), now),
    {
        let len: usize = self.target_count();
        let work: usize = if len <= TIMEOUT_WORK_BUDGET {
            len
        } else {
            TIMEOUT_WORK_BUDGET
        };
        self.set_timeout_budget(TIMEOUT_WORK_BUDGET);
        let mut seen: usize = 0;
        while seen < work
            invariant
                seen <= work,
                work <= len,
                len == old(self)@.targets.len(),
                self@ == old(self)@.discovered(seen as nat, now),
                self@.targets == old(self)@.targets,
            decreases work - seen,
        {
            let cursors = self.cursors();
            let index: usize = cursors.timeout_cursor % len;
            proof {
                lemma_ring_step(cursors.timeout_cursor as int, len as int);
                lemma_ring_step(index as int, len as int);
                vstd::arithmetic::div_mod::lemma_small_mod(index as nat, len as nat);
            }
            let next: usize = if index + 1 == len {
                0
            } else {
                index + 1
            };
            let generation: u64 = self.target(index).instance.generation;
            let found: bool = self.is_overdue(index, now) && !self.backlog_names(index, generation);
            self.set_cursors(Cursors { timeout_cursor: next, ..cursors });
            if found {
                self.push_backlog(TimeoutBacklogEntry { index, generation });
            }
            assert(self@ == old(self)@.discovered((seen + 1) as nat, now));
            seen += 1;
        }
    }

    /// The target whose probe the pass expires next, if its budget and the
    /// backlog leave one. Entries that are out of date are dropped on the way.
    pub fn next_expiry(&mut self, now: Instant) -> (result: Option<usize>)
        ensures
            ({
                let trimmed = old(self)@.backlog_trimmed(now);
                match result {
                    Some(index) => {
                        &&& old(self)@.timeout_budget > 0
                        &&& trimmed.len() > 0
                        &&& index == trimmed[0].index
                        &&& index < old(self)@.targets.len()
                        &&& overdue(old(self)@.targets[index as int], now)
                        &&& final(self)@ == (TaskView {
                            timeout_backlog: trimmed.drop_first(),
                            timeout_budget: (old(self)@.timeout_budget - 1) as usize,
                            ..old(self)@
                        })
                    },
                    None => if old(self)@.timeout_budget == 0 {
                        final(self)@ == old(self)@
                    } else {
                        &&& trimmed.len() == 0
                        &&& final(self)@ == (TaskView { timeout_backlog: trimmed, ..old(self)@ })
                    },
                }
            }),
    {
        if self.timeout_budget() == 0 {
            return None;
        }
        while self.timeout_backlog_len() > 0
            invariant
                old(self)@.timeout_budget > 0,
                self@ == (TaskView { timeout_backlog: self@.timeout_backlog, ..old(self)@ }),
                self@.backlog_trimmed(now) == old(self)@.backlog_trimmed(now),
            decreases self@.timeout_backlog.len(),
        {
            let ghost before = self@;
            if let Some(entry) = self.pop_backlog() {
                if entry.index < self.target_count() && self.target(
                    entry.index,
                ).instance.generation == entry.generation && self.is_overdue(entry.index, now) {
                    assert(before.current(entry, now));
                    let budget: usize = self.timeout_budget();
                    self.set_timeout_budget(budget - 1);
                    return Some(entry.index);
                }
            }
        }
        None
    }

    /// Takes in that a due probe of a target was expired. While more are due,
    /// the target waits for its next turn.
    pub fn finish_expiry(
        &mut self,
        index: usize,
        poll: TimeoutPoll,
        facts: ClientFacts,
        now: Instant,
        clock: Instant,
    )
        requires
            index < old(self)@.targets.len(),
        ensures
            ({
                let expired = old(self)@.expired(index as int, poll, facts, now, clock);
                final(self)@ == (if overdue(expired.targets[index as int], now) {
                    TaskView {
                        timeout_backlog: expired.timeout_backlog.push(
                            TimeoutBacklogEntry {
                                index,
                                generation: expired.targets[index as int].instance.generation,
                            },
                        ),
                        ..expired
                    }
                } else {
                    expired
                })
            }),
    {
        proof {
            lemma_expired_frame(self@, index as int, poll, facts, now, clock);
        }
        self.expire_target(index, poll, facts, now, clock);
        if self.is_overdue(index, now) {
            let generation: u64 = self.target(index).instance.generation;
            self.push_backlog(TimeoutBacklogEntry { index, generation });
        }
    }

    /// Whether a pass left targets with due probes behind.
    pub fn timeouts_pending(&self) -> (result: bool)
        ensures
            result == (self@.timeout_backlog.len() > 0),
    {
        self.timeout_backlog_len() > 0
    }
}

} // verus!
