//! The order of work in one poll of the driver.
//!
//! A turn says what is done next. It applies queued commands within a budget,
//! commits losses before replies are received, drops what has ended before
//! anything is sent, and ends with the decision whether to be polled again at
//! once. Where work is left anyway, the targets are not searched for the next
//! deadline.
use vstd::prelude::*;

use crate::task::view::COMMAND_WORK_BUDGET;

verus! {

/// What is done next.
#[derive(Debug, Clone, Copy, PartialEq, Eq, Structural)]
pub enum PollStage {
    /// Take one command from the queue and apply it. So many may follow.
    Commands { left: usize },
    /// Expire probes that are due.
    Timeouts,
    /// Step the targets of one pass.
    Targets,
    /// Drop the targets that have ended and are no longer wanted.
    Prune,
    /// Send what one poll may send.
    Sends,
    /// End the driver if it is done.
    Complete,
    /// Arrange to be polled when a stop is requested. `deadline` tells that the
    /// next deadline is looked up after that.
    WatchStop { deadline: bool },
    /// Look up the next deadline of the targets and arrange to be polled then.
    Deadline,
    /// The poll is over.
    Over,
}

/// What a stage came to.
#[derive(Debug, Clone, Copy, PartialEq, Eq, Structural)]
pub enum PollReport {
    /// A command was applied or refused.
    Command,
    /// The queue holds no command.
    NoCommand,
    /// The stage is done. `again` tells that it left work for another poll.
    Done { again: bool },
}

/// One poll of the driver, as far as it has come.
#[derive(Debug, Clone, Copy, PartialEq, Eq, Structural)]
pub struct PollTurn {
    pub stage: PollStage,
    /// Whether the driver has to be polled again at once.
    pub again: bool,
}

impl PollReport {
    /// `self` can come of `stage`.
    pub open spec fn fits(self, stage: PollStage) -> bool {
        match self {
            PollReport::Command => stage is Commands,
            PollReport::NoCommand => stage is Commands,
            PollReport::Done { .. } => !(stage is Commands) && !(stage is Over),
        }
    }
}

impl PollTurn {
    /// The turn at its start.
    pub open spec fn fresh() -> PollTurn {
        PollTurn { stage: PollStage::Commands { left: COMMAND_WORK_BUDGET }, again: false }
    }

    /// The turn after its current stage reported. A command that was taken asks
    /// for another poll, since the queue was not seen empty. A driver that has
    /// work left when it is asked whether it is done skips the deadline.
    pub open spec fn advanced(self, report: PollReport) -> PollTurn {
        match report {
            PollReport::Command => PollTurn {
                stage: match self.stage {
                    PollStage::Commands { left } if left > 1 => PollStage::Commands {
                        left: (left - 1) as usize,
                    },
                    _ => PollStage::Timeouts,
                },
                again: true,
            },
            PollReport::NoCommand => PollTurn { stage: PollStage::Timeouts, ..self },
            PollReport::Done { again } => PollTurn {
                stage: match self.stage {
                    PollStage::Commands { .. } => PollStage::Timeouts,
                    PollStage::Timeouts => PollStage::Targets,
                    PollStage::Targets => PollStage::Prune,
                    PollStage::Prune => PollStage::Sends,
                    PollStage::Sends => PollStage::Complete,
                    PollStage::Complete => PollStage::WatchStop { deadline: !again },
                    PollStage::WatchStop { deadline: true } => PollStage::Deadline,
                    PollStage::WatchStop { deadline: false } => PollStage::Over,
                    PollStage::Deadline => PollStage::Over,
                    PollStage::Over => PollStage::Over,
                },
                again: self.again || again,
            },
        }
    }

    pub fn new() -> (result: PollTurn)
        ensures
            result == PollTurn::fresh(),
    {
        PollTurn { stage: PollStage::Commands { left: COMMAND_WORK_BUDGET }, again: false }
    }

    /// Goes on to what follows the current stage.
    pub fn advance(&mut self, report: PollReport)
        requires
            report.fits(old(self).stage),
        ensures
            *final(self) == old(self).advanced(report),
    {
        match report {
            PollReport::Command => {
                self.again = true;
                self.stage = match self.stage {
                    PollStage::Commands { left } if left > 1 => PollStage::Commands {
                        left: left - 1,
                    },
                    _ => PollStage::Timeouts,
                };
            },
            PollReport::NoCommand => {
                self.stage = PollStage::Timeouts;
            },
            PollReport::Done { again } => {
                if again {
                    self.again = true;
                }
                self.stage = match self.stage {
                    PollStage::Commands { .. } => PollStage::Timeouts,
                    PollStage::Timeouts => PollStage::Targets,
                    PollStage::Targets => PollStage::Prune,
                    PollStage::Prune => PollStage::Sends,
                    PollStage::Sends => PollStage::Complete,
                    PollStage::Complete => PollStage::WatchStop { deadline: !again },
                    PollStage::WatchStop { deadline: true } => PollStage::Deadline,
                    _ => PollStage::Over,
                };
            },
        }
    }
}

/// How many reports a turn can still take.
pub open spec fn reports_left(stage: PollStage) -> nat {
    match stage {
        PollStage::Commands { left } => 7 + if left > 1 {
            left as nat
        } else {
            1
        },
        PollStage::Timeouts => 7,
        PollStage::Targets => 6,
        PollStage::Prune => 5,
        PollStage::Sends => 4,
        PollStage::Complete => 3,
        PollStage::WatchStop { deadline: true } => 2,
        PollStage::WatchStop { deadline: false } => 1,
        PollStage::Deadline => 1,
        PollStage::Over => 0,
    }
}

/// A turn comes to its end: every report brings it closer, and at most one
/// budget of commands is applied.
pub proof fn law_poll_turn_ends(turn: PollTurn, report: PollReport)
    requires
        report.fits(turn.stage),
    ensures
        reports_left(turn.advanced(report).stage) < reports_left(turn.stage),
        reports_left(PollTurn::fresh().stage) == COMMAND_WORK_BUDGET + 7,
        reports_left(turn.stage) == 0 <==> turn.stage is Over,
{
}

/// Work that a stage left behind is not forgotten: the driver is polled again
/// exactly where some stage asked for it or a command was taken.
pub proof fn law_work_left_wakes_driver(turn: PollTurn, report: PollReport)
    ensures
        turn.advanced(report).again <==> (turn.again || report is Command || report
            == (PollReport::Done { again: true })),
{
}

/// Losses are committed before targets are stepped, targets that ended are
/// dropped before anything is sent, and the driver ends only after that.
pub proof fn law_poll_stages_are_ordered(turn: PollTurn, report: PollReport)
    requires
        report.fits(turn.stage),
    ensures
        ({
            let next = turn.advanced(report).stage;
            &&& next is Targets ==> turn.stage is Timeouts
            &&& next is Prune ==> turn.stage is Targets
            &&& next is Sends ==> turn.stage is Prune
            &&& next is Complete ==> turn.stage is Sends
            &&& next is WatchStop ==> turn.stage is Complete
            &&& next is Deadline ==> turn.stage is WatchStop
            &&& next is Commands ==> turn.stage is Commands
        }),
{
}

/// The stages that a turn works through while the reports come in, from the
/// current one on.
pub open spec fn stages(turn: PollTurn, reports: Seq<PollReport>) -> Seq<PollStage>
    decreases reports.len(),
{
    if reports.len() == 0 {
        seq![turn.stage]
    } else {
        seq![turn.stage] + stages(turn.advanced(reports[0]), reports.drop_first())
    }
}

/// A driver that has work left after it was asked whether it is done ends its
/// turn without looking up a deadline. One that has none looks it up, once, as
/// the last thing in its turn. A stop is watched for either way.
pub proof fn law_work_left_skips_deadline(
    turn: PollTurn,
    left: bool,
    watched: PollReport,
    looked_up: PollReport,
)
    requires
        turn.stage is Complete,
        watched is Done,
        looked_up is Done,
    ensures
        left ==> stages(turn, seq![PollReport::Done { again: left }, watched]) == seq![
            PollStage::Complete,
            PollStage::WatchStop { deadline: false },
            PollStage::Over,
        ],
        !left ==> stages(turn, seq![PollReport::Done { again: left }, watched, looked_up]) == seq![
            PollStage::Complete,
            PollStage::WatchStop { deadline: true },
            PollStage::Deadline,
            PollStage::Over,
        ],
{
    let asked = PollReport::Done { again: left };
    reveal_with_fuel(stages, 4);
    assert(seq![asked, watched].drop_first() =~= seq![watched]);
    assert(seq![watched].drop_first() =~= Seq::<PollReport>::empty());
    assert(seq![asked, watched, looked_up].drop_first() =~= seq![watched, looked_up]);
    assert(seq![watched, looked_up].drop_first() =~= seq![looked_up]);
    assert(seq![looked_up].drop_first() =~= Seq::<PollReport>::empty());
}

} // verus!
