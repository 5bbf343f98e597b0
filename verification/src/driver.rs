//! The skeleton of a managed driver: control barriers, stopping and sealing.
//!
//! Handles and the driver share a [`StopLatch`]. The driver appends what it
//! publishes to an outbox, in order. The caller performs those effects, feeds
//! the driver what its command queue yields, and closes that queue when asked.
use vstd::prelude::*;

verus! {

/// Commands that the control queue holds.
pub const COMMAND_CAPACITY: usize = 1;

/// Presentation events that are kept for a slow subscriber.
pub const EVENT_CAPACITY: usize = 16;

/// What graceful completion came to.
#[derive(Debug, Clone, Copy, PartialEq, Eq, Structural)]
pub struct ManagedOutcome {
    /// Last control revision that was applied.
    pub control_revision: u64,
}

/// Failure of the driver or of its worker thread.
#[derive(Debug, PartialEq, Eq)]
pub enum ManagedRunError {
    /// The first poll did not occur inside a runtime.
    NoRuntime,
    /// The worker's runtime could not be built.
    RuntimeBuild { message: String },
    /// The worker thread panicked.
    WorkerPanicked,
}

impl Clone for ManagedRunError {
    fn clone(&self) -> (result: ManagedRunError)
        ensures
            result == *self,
    {
        match self {
            ManagedRunError::NoRuntime => ManagedRunError::NoRuntime,
            ManagedRunError::RuntimeBuild { message } => ManagedRunError::RuntimeBuild {
                message: message.clone(),
            },
            ManagedRunError::WorkerPanicked => ManagedRunError::WorkerPanicked,
        }
    }
}

/// What a driver, or its worker, came to.
pub type ManagedTaskResult = Result<ManagedOutcome, ManagedRunError>;

/// Latest lifecycle state of the driver.
#[derive(Debug, PartialEq, Eq)]
pub enum ManagedStatus {
    /// The driver has not been polled yet.
    NotStarted,
    Running { control_revision: u64 },
    /// Admission is closed.
    Stopping { control_revision: u64 },
    Completed(ManagedOutcome),
    Failed { error: ManagedRunError },
    /// The driver was dropped before it completed.
    Abandoned,
}

impl ManagedStatus {
    /// Whether nothing may follow this status.
    pub open spec fn is_terminal(self) -> bool {
        self is Completed || self is Failed || self is Abandoned
    }
}

/// Presentation event of the driver. Nothing depends on its delivery.
#[derive(Debug, PartialEq, Eq)]
pub enum ManagedEvent {
    Started,
    ControlApplied { revision: u64 },
    Stopping,
    Completed(ManagedOutcome),
    Failed { error: ManagedRunError },
    Abandoned,
}

/// Failure to subscribe to presentation events.
#[derive(Debug, Clone, Copy, PartialEq, Eq, Structural)]
pub enum ManagedSubscribeError {
    Closed,
}

/// Failure to start a managed client.
#[derive(Debug, PartialEq, Eq)]
pub enum ManagedStartError {
    /// The worker thread could not be spawned.
    ThreadSpawn { message: String },
}

/// Failure of a control command.
#[derive(Debug, Clone, Copy, PartialEq, Eq, Structural)]
pub enum ManagedCommandError {
    /// Admission is closed.
    Stopping,
    QueueFull,
    DriverClosed,
    /// The driver ended without answering an accepted command.
    AcknowledgementDisconnected,
}

/// Answer to an applied control barrier.
#[derive(Debug, Clone, Copy, PartialEq, Eq, Structural)]
pub struct ManagedCommandAck {
    pub revision: u64,
}

/// Command of the control queue. A ticket names the receipt that waits for it.
#[derive(Debug, Clone, Copy, PartialEq, Eq, Structural)]
pub enum ManagedCommand {
    Barrier { ticket: u64 },
    Wakeup,
}

/// What became of a command offered to the bounded queue.
#[derive(Debug, Clone, Copy, PartialEq, Eq, Structural)]
pub enum Offer {
    Sent,
    Full,
    Closed,
}

/// Whether new commands are admitted.
#[derive(Debug, Clone, Copy, PartialEq, Eq, Structural)]
pub struct StopLatch {
    pub admission_open: bool,
}

impl StopLatch {
    pub fn new() -> (result: StopLatch)
        ensures
            result.admission_open,
    {
        StopLatch { admission_open: true }
    }

    /// Closes admission and says whether it was open.
    pub fn close(&mut self) -> (result: bool)
        ensures
            !final(self).admission_open,
            result == old(self).admission_open,
    {
        let was_open: bool = self.admission_open;
        self.admission_open = false;
        was_open
    }

    pub fn is_open(&self) -> (result: bool)
        ensures
            result == self.admission_open,
    {
        self.admission_open
    }

    /// Whether a barrier may be offered to the queue.
    pub fn admit_barrier(&self) -> (result: Result<(), ManagedCommandError>)
        ensures
            result == if self.admission_open {
                Ok::<(), ManagedCommandError>(())
            } else {
                Err(ManagedCommandError::Stopping)
            },
    {
        if self.is_open() {
            Ok(())
        } else {
            Err(ManagedCommandError::Stopping)
        }
    }
}

/// What a handle returns for a barrier that was offered to the queue.
pub fn barrier_result(offer: Offer) -> (result: Result<(), ManagedCommandError>)
    ensures
        result == match offer {
            Offer::Sent => Ok(()),
            Offer::Full => Err(ManagedCommandError::QueueFull),
            Offer::Closed => Err(ManagedCommandError::DriverClosed),
        },
{
    match offer {
        Offer::Sent => Ok(()),
        Offer::Full => Err(ManagedCommandError::QueueFull),
        Offer::Closed => Err(ManagedCommandError::DriverClosed),
    }
}

/// What a receipt yields once its answer, or the loss of it, is known.
pub fn receipt_result(
    answer: Option<Result<ManagedCommandAck, ManagedCommandError>>,
) -> (result: Result<ManagedCommandAck, ManagedCommandError>)
    ensures
        result == match answer {
            Some(answer) => answer,
            None => Err(ManagedCommandError::AcknowledgementDisconnected),
        },
{
    match answer {
        Some(answer) => answer,
        None => Err(ManagedCommandError::AcknowledgementDisconnected),
    }
}

/// What the driver makes known, in the order in which it does so.
#[derive(Debug, PartialEq, Eq)]
pub enum DriverEffect {
    Status(ManagedStatus),
    Event(ManagedEvent),
    /// The receipt of this ticket is answered.
    Answer { ticket: u64, result: Result<ManagedCommandAck, ManagedCommandError> },
    /// The receipt of this ticket will never be answered.
    Disconnect { ticket: u64 },
    /// No further event follows, and no subscription is accepted.
    CloseEvents,
}

#[derive(Debug, Clone, Copy, PartialEq, Eq, Structural)]
pub enum DriverState {
    NotStarted,
    Running,
    /// The driver is ending and waits for what its closed queue still held.
    Sealing,
    Finished,
}

/// What the command queue yielded.
#[derive(Debug, Clone, Copy, PartialEq, Eq, Structural)]
pub enum Received {
    Pending,
    Command(ManagedCommand),
    /// Every handle is gone.
    Disconnected,
}

/// How a poll goes on.
#[derive(Debug, PartialEq, Eq)]
pub enum DriverPoll {
    /// Receive from the command queue.
    Receive,
    /// Nothing to do until the next wakeup.
    Pending,
    /// Close the queue and hand over what it still holds.
    Seal,
    /// The driver ended.
    Failed { error: ManagedRunError },
}

/// The driver of a managed client.
#[derive(Debug)]
pub struct ManagedClientTask {
    pub state: DriverState,
    pub control_revision: u64,
    /// Whether dropping the driver is still to be reported.
    pub abandonment_guard_armed: bool,
    /// Whether the driver runs on a worker thread of its own.
    pub blocking_worker: bool,
    pub outbox: Vec<DriverEffect>,
}

/// State of a driver, with its outbox as a sequence.
pub struct DriverView {
    pub state: DriverState,
    pub control_revision: u64,
    pub abandonment_guard_armed: bool,
    pub blocking_worker: bool,
    pub outbox: Seq<DriverEffect>,
}

impl View for ManagedClientTask {
    type V = DriverView;

    open spec fn view(&self) -> DriverView {
        DriverView {
            state: self.state,
            control_revision: self.control_revision,
            abandonment_guard_armed: self.abandonment_guard_armed,
            blocking_worker: self.blocking_worker,
            outbox: self.outbox@,
        }
    }
}

/// Answers to what a queue still held: each barrier in turn, wakeups left out.
pub open spec fn answers(
    queued: Seq<ManagedCommand>,
    answer: spec_fn(u64) -> DriverEffect,
) -> Seq<DriverEffect>
    decreases queued.len(),
{
    if queued.len() == 0 {
        Seq::empty()
    } else {
        let before = answers(queued.drop_last(), answer);
        match queued.last() {
            ManagedCommand::Barrier { ticket } => before.push(answer(ticket)),
            ManagedCommand::Wakeup => before,
        }
    }
}

/// The answer to a barrier that comes too late.
pub open spec fn too_late() -> spec_fn(u64) -> DriverEffect {
    |ticket: u64|
        DriverEffect::Answer { ticket, result: Err(ManagedCommandError::Stopping) }
}

/// The loss of a barrier's answer.
pub open spec fn lost() -> spec_fn(u64) -> DriverEffect {
    |ticket: u64| DriverEffect::Disconnect { ticket }
}

impl DriverView {
    /// The end of a driver is still to be reported until it has finished.
    pub open spec fn wf(self) -> bool {
        self.abandonment_guard_armed == !(self.state is Finished)
    }

    pub open spec fn emitting(self, effects: Seq<DriverEffect>) -> DriverView {
        DriverView { outbox: self.outbox + effects, ..self }
    }

    pub open spec fn finished(self) -> DriverView {
        DriverView { state: DriverState::Finished, abandonment_guard_armed: false, ..self }
    }

    pub open spec fn started(self) -> DriverView {
        DriverView { state: DriverState::Running, ..self }.emitting(
            seq![
                DriverEffect::Status(ManagedStatus::Running { control_revision: 0 }),
                DriverEffect::Event(ManagedEvent::Started),
            ],
        )
    }

    /// The revision that the next barrier gets.
    pub open spec fn next_revision(self) -> u64 {
        if self.control_revision < u64::MAX {
            (self.control_revision + 1) as u64
        } else {
            u64::MAX
        }
    }

    pub open spec fn applied(self, command: ManagedCommand) -> DriverView {
        match command {
            ManagedCommand::Barrier { ticket } => {
                let revision = self.next_revision();
                DriverView { control_revision: revision, ..self }.emitting(
                    seq![
                        DriverEffect::Status(ManagedStatus::Running { control_revision: revision }),
                        DriverEffect::Event(ManagedEvent::ControlApplied { revision }),
                        DriverEffect::Answer { ticket, result: Ok(ManagedCommandAck { revision }) },
                    ],
                )
            },
            ManagedCommand::Wakeup => self,
        }
    }

    pub open spec fn sealing(self) -> DriverView {
        DriverView { state: DriverState::Sealing, ..self }.emitting(
            seq![
                DriverEffect::Status(
                    ManagedStatus::Stopping { control_revision: self.control_revision },
                ),
                DriverEffect::Event(ManagedEvent::Stopping),
            ],
        )
    }

    pub open spec fn sealed(self, queued: Seq<ManagedCommand>) -> DriverView {
        let outcome = ManagedOutcome { control_revision: self.control_revision };
        self.finished().emitting(
            answers(queued, too_late()) + seq![
                DriverEffect::Event(ManagedEvent::Completed(outcome)),
                DriverEffect::Status(ManagedStatus::Completed(outcome)),
                DriverEffect::CloseEvents,
            ],
        )
    }

    pub open spec fn failed(
        self,
        error: ManagedRunError,
        queued: Seq<ManagedCommand>,
    ) -> DriverView {
        self.finished().emitting(
            answers(queued, lost()) + seq![
                DriverEffect::Event(ManagedEvent::Failed { error }),
                DriverEffect::Status(ManagedStatus::Failed { error }),
                DriverEffect::CloseEvents,
            ],
        )
    }

    pub open spec fn abandoned(self, queued: Seq<ManagedCommand>) -> DriverView {
        self.finished().emitting(
            answers(queued, lost()) + seq![
                DriverEffect::Event(ManagedEvent::Abandoned),
                DriverEffect::Status(ManagedStatus::Abandoned),
                DriverEffect::CloseEvents,
            ],
        )
    }

    /// What dropping the driver leaves, with `panicking` telling whether the
    /// thread is unwinding.
    pub open spec fn dropped(self, panicking: bool, queued: Seq<ManagedCommand>) -> DriverView {
        if !self.abandonment_guard_armed {
            self
        } else if self.blocking_worker && panicking {
            self.failed(ManagedRunError::WorkerPanicked, queued)
        } else {
            self.abandoned(queued)
        }
    }
}

impl ManagedClientTask {
    /// A driver that has not been polled. Its status is `NotStarted`.
    pub fn new() -> (result: ManagedClientTask)
        ensures
            result@ == (DriverView {
                state: DriverState::NotStarted,
                control_revision: 0,
                abandonment_guard_armed: true,
                blocking_worker: false,
                outbox: Seq::empty(),
            }),
    {
        ManagedClientTask {
            state: DriverState::NotStarted,
            control_revision: 0,
            abandonment_guard_armed: true,
            blocking_worker: false,
            outbox: Vec::new(),
        }
    }

    /// Hands out what was published since the last call.
    pub fn take_outbox(&mut self) -> (result: Vec<DriverEffect>)
        ensures
            result@ == old(self)@.outbox,
            final(self)@ == (DriverView { outbox: Seq::empty(), ..old(self)@ }),
    {
        let mut taken: Vec<DriverEffect> = Vec::new();
        std::mem::swap(&mut taken, &mut self.outbox);
        taken
    }

    fn publish_status(&mut self, status: ManagedStatus)
        ensures
            final(self)@ == old(self)@.emitting(seq![DriverEffect::Status(status)]),
    {
        self.outbox.push(DriverEffect::Status(status));
        assert(self@.outbox =~= old(self)@.emitting(seq![DriverEffect::Status(status)]).outbox);
    }

    fn publish_event(&mut self, event: ManagedEvent)
        ensures
            final(self)@ == old(self)@.emitting(seq![DriverEffect::Event(event)]),
    {
        self.outbox.push(DriverEffect::Event(event));
        assert(self@.outbox =~= old(self)@.emitting(seq![DriverEffect::Event(event)]).outbox);
    }

    /// Applies one admitted command. The status comes first, the answer last.
    pub fn apply_command(&mut self, command: ManagedCommand)
        ensures
            final(self)@ == old(self)@.applied(command),
    {
        match command {
            ManagedCommand::Barrier { ticket } => {
                let revision: u64 = self.control_revision.saturating_add(1);
                self.control_revision = revision;
                self.publish_status(ManagedStatus::Running { control_revision: revision });
                self.publish_event(ManagedEvent::ControlApplied { revision });
                self.outbox.push(
                    DriverEffect::Answer { ticket, result: Ok(ManagedCommandAck { revision }) },
                );
                assert(self@.outbox =~= old(self)@.applied(command).outbox);
            },
            ManagedCommand::Wakeup => {},
        }
    }

    /// Enters a poll. The first one outside a runtime fails the driver, and
    /// `queued` is what its closed queue still held.
    pub fn begin_poll(
        &mut self,
        latch: &mut StopLatch,
        runtime_available: bool,
        queued: Vec<ManagedCommand>,
    ) -> (result: DriverPoll)
        requires
            old(self)@.state is NotStarted || old(self)@.state is Running,
        ensures
            ({
                let fails = old(self)@.state is NotStarted && !runtime_available;
                let entered = if old(self)@.state is NotStarted {
                    old(self)@.started()
                } else {
                    old(self)@
                };
                if fails {
                    &&& result == DriverPoll::Failed { error: ManagedRunError::NoRuntime }
                    &&& final(self)@ == old(self)@.failed(ManagedRunError::NoRuntime, queued@)
                    &&& !final(latch).admission_open
                } else if old(latch).admission_open {
                    &&& result is Receive
                    &&& final(self)@ == entered
                    &&& final(latch).admission_open
                } else {
                    &&& result is Seal
                    &&& final(self)@ == entered.sealing()
                    &&& !final(latch).admission_open
                }
            }),
    {
        match self.state {
            DriverState::NotStarted => {
                if !runtime_available {
                    self.seal_failure(latch, ManagedRunError::NoRuntime, queued);
                    return DriverPoll::Failed { error: ManagedRunError::NoRuntime };
                }
                self.state = DriverState::Running;
                self.publish_status(ManagedStatus::Running { control_revision: 0 });
                self.publish_event(ManagedEvent::Started);
                assert(self@.outbox =~= old(self)@.started().outbox);
            },
            _ => {},
        }
        if !latch.is_open() {
            self.begin_sealing(latch);
            return DriverPoll::Seal;
        }
        DriverPoll::Receive
    }

    /// Takes in what the command queue yielded.
    pub fn receive_command(&mut self, latch: &mut StopLatch, received: Received) -> (result:
        DriverPoll)
        requires
            old(self)@.state is Running,
        ensures
            match received {
                Received::Pending => {
                    &&& result is Pending
                    &&& final(self)@ == old(self)@
                    &&& *final(latch) == *old(latch)
                },
                Received::Disconnected => {
                    &&& result is Seal
                    &&& final(self)@ == old(self)@.sealing()
                    &&& !final(latch).admission_open
                },
                Received::Command(command) => if old(latch).admission_open {
                    &&& result is Receive
                    &&& final(self)@ == old(self)@.applied(command)
                    &&& final(latch).admission_open
                } else {
                    &&& result is Seal
                    &&& final(self)@ == old(self)@.emitting(
                        answers(seq![command], too_late()),
                    ).sealing()
                    &&& !final(latch).admission_open
                },
            },
    {
        match received {
            Received::Pending => DriverPoll::Pending,
            Received::Disconnected => {
                self.begin_sealing(latch);
                DriverPoll::Seal
            },
            Received::Command(command) => {
                if latch.is_open() {
                    self.apply_command(command);
                    return DriverPoll::Receive;
                }
                assert(seq![command].drop_last() =~= Seq::<ManagedCommand>::empty());
                reveal_with_fuel(answers, 2);
                if let ManagedCommand::Barrier { ticket } = command {
                    self.outbox.push(
                        DriverEffect::Answer { ticket, result: Err(ManagedCommandError::Stopping) },
                    );
                }
                assert(self@.outbox =~= old(self)@.emitting(
                    answers(seq![command], too_late()),
                ).outbox);
                self.begin_sealing(latch);
                DriverPoll::Seal
            },
        }
    }

    fn begin_sealing(&mut self, latch: &mut StopLatch)
        ensures
            final(self)@ == old(self)@.sealing(),
            !final(latch).admission_open,
    {
        self.state = DriverState::Sealing;
        let _ = latch.close();
        let control_revision: u64 = self.control_revision;
        self.publish_status(ManagedStatus::Stopping { control_revision });
        self.publish_event(ManagedEvent::Stopping);
        assert(self@.outbox =~= old(self)@.sealing().outbox);
    }

    fn reject_queued_commands(&mut self, queued: Vec<ManagedCommand>)
        ensures
            final(self)@ == old(self)@.emitting(answers(queued@, too_late())),
    {
        assert(self@.outbox =~= old(self)@.emitting(Seq::empty()).outbox);
        assert(queued@.take(0) =~= Seq::<ManagedCommand>::empty());
        let mut i: usize = 0;
        while i < queued.len()
            invariant
                i <= queued@.len(),
                self@ == old(self)@.emitting(answers(queued@.take(i as int), too_late())),
            decreases queued@.len() - i,
        {
            assert(queued@.take(i as int + 1).drop_last() =~= queued@.take(i as int));
            if let ManagedCommand::Barrier { ticket } = queued[i] {
                self.outbox.push(
                    DriverEffect::Answer { ticket, result: Err(ManagedCommandError::Stopping) },
                );
            }
            i += 1;
            assert(self@.outbox =~= old(self)@.emitting(
                answers(queued@.take(i as int), too_late()),
            ).outbox);
        }
        assert(queued@.take(i as int) =~= queued@);
    }

    fn disconnect_queued_commands(&mut self, queued: Vec<ManagedCommand>)
        ensures
            final(self)@ == old(self)@.emitting(answers(queued@, lost())),
    {
        assert(self@.outbox =~= old(self)@.emitting(Seq::empty()).outbox);
        assert(queued@.take(0) =~= Seq::<ManagedCommand>::empty());
        let mut i: usize = 0;
        while i < queued.len()
            invariant
                i <= queued@.len(),
                self@ == old(self)@.emitting(answers(queued@.take(i as int), lost())),
            decreases queued@.len() - i,
        {
            assert(queued@.take(i as int + 1).drop_last() =~= queued@.take(i as int));
            if let ManagedCommand::Barrier { ticket } = queued[i] {
                self.outbox.push(DriverEffect::Disconnect { ticket });
            }
            i += 1;
            assert(self@.outbox =~= old(self)@.emitting(
                answers(queued@.take(i as int), lost()),
            ).outbox);
        }
        assert(queued@.take(i as int) =~= queued@);
    }

    /// Ends the driver in order. `queued` is what its closed queue still held.
    pub fn finish_gracefully(&mut self, queued: Vec<ManagedCommand>) -> (result: ManagedOutcome)
        requires
            old(self)@.state is Sealing,
        ensures
            final(self)@ == old(self)@.sealed(queued@),
            result.control_revision == old(self)@.control_revision,
    {
        let ghost listed = queued@;
        self.reject_queued_commands(queued);
        let outcome = ManagedOutcome { control_revision: self.control_revision };
        self.publish_event(ManagedEvent::Completed(outcome));
        self.publish_status(ManagedStatus::Completed(outcome));
        self.outbox.push(DriverEffect::CloseEvents);
        self.state = DriverState::Finished;
        self.abandonment_guard_armed = false;
        assert(self@.outbox =~= old(self)@.sealed(listed).outbox);
        outcome
    }

    /// Ends the driver with a failure. `queued` is what its closed queue still
    /// held.
    pub fn seal_failure(
        &mut self,
        latch: &mut StopLatch,
        error: ManagedRunError,
        queued: Vec<ManagedCommand>,
    )
        ensures
            final(self)@ == old(self)@.failed(error, queued@),
            !final(latch).admission_open,
    {
        let ghost listed = queued@;
        let _ = latch.close();
        self.disconnect_queued_commands(queued);
        self.publish_event(ManagedEvent::Failed { error: error.clone() });
        self.publish_status(ManagedStatus::Failed { error });
        self.outbox.push(DriverEffect::CloseEvents);
        self.state = DriverState::Finished;
        self.abandonment_guard_armed = false;
        assert(self@.outbox =~= old(self)@.failed(error, listed).outbox);
    }

    fn seal_abandoned(&mut self, latch: &mut StopLatch, queued: Vec<ManagedCommand>)
        ensures
            final(self)@ == old(self)@.abandoned(queued@),
            !final(latch).admission_open,
    {
        let ghost listed = queued@;
        let _ = latch.close();
        self.disconnect_queued_commands(queued);
        self.publish_event(ManagedEvent::Abandoned);
        self.publish_status(ManagedStatus::Abandoned);
        self.outbox.push(DriverEffect::CloseEvents);
        self.state = DriverState::Finished;
        self.abandonment_guard_armed = false;
        assert(self@.outbox =~= old(self)@.abandoned(listed).outbox);
    }

    /// Takes leave of a driver that is dropped. One that has finished is left
    /// as it is.
    pub fn release(&mut self, latch: &mut StopLatch, panicking: bool, queued: Vec<ManagedCommand>)
        ensures
            final(self)@ == old(self)@.dropped(panicking, queued@),
            final(latch).admission_open == (old(latch).admission_open
                && !old(self)@.abandonment_guard_armed),
    {
        if !self.abandonment_guard_armed {
            return;
        }
        if self.blocking_worker && panicking {
            self.seal_failure(latch, ManagedRunError::WorkerPanicked, queued);
        } else {
            self.seal_abandoned(latch, queued);
        }
    }
}

/// What joining a worker yields. A worker that panicked yields nothing.
pub fn join_result(worker: Option<ManagedTaskResult>) -> (result: ManagedTaskResult)
    ensures
        result == match worker {
            Some(outcome) => outcome,
            None => Err(ManagedRunError::WorkerPanicked),
        },
{
    match worker {
        Some(outcome) => outcome,
        None => Err(ManagedRunError::WorkerPanicked),
    }
}

/// The status that was published last, with `before` in force until then.
pub open spec fn latest_status(effects: Seq<DriverEffect>, before: ManagedStatus) -> ManagedStatus
    decreases effects.len(),
{
    if effects.len() == 0 {
        before
    } else {
        match effects.last() {
            DriverEffect::Status(status) => status,
            _ => latest_status(effects.drop_last(), before),
        }
    }
}

/// The answer to a barrier follows the status that holds its revision.
pub proof fn law_answer_follows_status(driver: DriverView, ticket: u64, before: ManagedStatus)
    ensures
        ({
            let after = driver.applied(ManagedCommand::Barrier { ticket });
            let revision = driver.next_revision();
            &&& after.outbox.last() == (DriverEffect::Answer {
                ticket,
                result: Ok(ManagedCommandAck { revision }),
            })
            &&& latest_status(after.outbox.drop_last(), before) == (ManagedStatus::Running {
                control_revision: revision,
            })
        }),
{
    let after = driver.applied(ManagedCommand::Barrier { ticket });
    let revision = driver.next_revision();
    let unanswered = after.outbox.drop_last();
    assert(unanswered.last() == DriverEffect::Event(ManagedEvent::ControlApplied { revision }));
    assert(unanswered.drop_last().last() == DriverEffect::Status(
        ManagedStatus::Running { control_revision: revision },
    ));
    reveal_with_fuel(latest_status, 3);
}

/// Revisions never go back, and each barrier below the limit gets a new one.
pub proof fn law_revisions_increase(driver: DriverView, command: ManagedCommand)
    ensures
        driver.applied(command).control_revision >= driver.control_revision,
        command is Barrier && driver.control_revision < u64::MAX ==> driver.applied(
            command,
        ).control_revision == driver.control_revision + 1,
{
}

/// However the driver ends, its last word is a terminal status, after which no
/// event can follow. Dropping it then changes nothing.
pub proof fn law_end_is_final(
    driver: DriverView,
    error: ManagedRunError,
    queued: Seq<ManagedCommand>,
    before: ManagedStatus,
    panicking: bool,
    later: Seq<ManagedCommand>,
)
    ensures
        ({
            let ends = seq![
                driver.sealed(queued),
                driver.failed(error, queued),
                driver.abandoned(queued),
            ];
            forall|i: int| 0 <= i < ends.len() ==> {
                let end = #[trigger] ends[i];
                &&& end.state is Finished
                &&& end.outbox.last() is CloseEvents
                &&& latest_status(end.outbox, before).is_terminal()
                &&& end.dropped(panicking, later) == end
            }
        }),
{
    let ends = seq![
        driver.sealed(queued),
        driver.failed(error, queued),
        driver.abandoned(queued),
    ];
    assert forall|i: int| 0 <= i < ends.len() implies {
        let end = #[trigger] ends[i];
        &&& end.state is Finished
        &&& end.outbox.last() is CloseEvents
        &&& latest_status(end.outbox, before).is_terminal()
        &&& end.dropped(panicking, later) == end
    } by {
        let end = ends[i];
        reveal_with_fuel(latest_status, 3);
        assert(end.outbox.drop_last().last() is Status);
        assert(end.outbox.drop_last().last()->Status_0.is_terminal());
    }
}

/// Exactly until it has finished, a driver has its end still to report.
pub proof fn law_end_is_reported_once(
    driver: DriverView,
    command: ManagedCommand,
    error: ManagedRunError,
    queued: Seq<ManagedCommand>,
)
    requires
        driver.wf(),
    ensures
        driver.state is NotStarted ==> driver.started().wf(),
        driver.applied(command).wf(),
        !(driver.state is Finished) ==> driver.sealing().wf(),
        driver.sealed(queued).wf(),
        driver.failed(error, queued).wf(),
        driver.abandoned(queued).wf(),
{
}

/// Every barrier that a queue still held is accounted for exactly once, in
/// order, whether it is refused or lost.
pub proof fn law_queued_barriers_are_accounted_for(queued: Seq<ManagedCommand>)
    ensures
        answers(queued, too_late()).len() == queued.filter(
            |command: ManagedCommand| command is Barrier,
        ).len(),
        answers(queued, lost()).len() == answers(queued, too_late()).len(),
    decreases queued.len(),
{
    reveal(Seq::filter);
    if queued.len() > 0 {
        law_queued_barriers_are_accounted_for(queued.drop_last());
    }
}

/// A driver starts by showing that it runs, at the first revision, and then
/// reports it.
pub proof fn law_driver_starts_running(driver: DriverView)
    ensures
        ({
            let after = driver.started();
            let n = driver.outbox.len() as int;
            &&& after.state is Running
            &&& after.outbox.len() == n + 2
            &&& after.outbox.take(n) == driver.outbox
            &&& after.outbox[n] == DriverEffect::Status(
                ManagedStatus::Running { control_revision: 0 },
            )
            &&& after.outbox[n + 1] == DriverEffect::Event(ManagedEvent::Started)
            &&& after.control_revision == driver.control_revision
        }),
{
    assert(driver.started().outbox.take(driver.outbox.len() as int) =~= driver.outbox);
}

/// A barrier is shown, reported and answered, in this order, with the revision
/// that it has made. A wakeup changes nothing.
pub proof fn law_barrier_is_applied(driver: DriverView, ticket: u64)
    ensures
        ({
            let after = driver.applied(ManagedCommand::Barrier { ticket });
            let n = driver.outbox.len() as int;
            let revision = after.control_revision;
            &&& driver.control_revision < u64::MAX ==> revision == driver.control_revision + 1
            &&& driver.control_revision == u64::MAX ==> revision == u64::MAX
            &&& after.state == driver.state
            &&& after.outbox.len() == n + 3
            &&& after.outbox.take(n) == driver.outbox
            &&& after.outbox[n] == DriverEffect::Status(
                ManagedStatus::Running { control_revision: revision },
            )
            &&& after.outbox[n + 1] == DriverEffect::Event(
                ManagedEvent::ControlApplied { revision },
            )
            &&& after.outbox[n + 2] == (DriverEffect::Answer {
                ticket,
                result: Ok(ManagedCommandAck { revision }),
            })
        }),
        driver.applied(ManagedCommand::Wakeup) == driver,
{
    let after = driver.applied(ManagedCommand::Barrier { ticket });
    assert(after.outbox.take(driver.outbox.len() as int) =~= driver.outbox);
}

/// A driver that stops shows and reports that, and waits for its queue.
pub proof fn law_stopping_is_shown(driver: DriverView)
    ensures
        ({
            let after = driver.sealing();
            let n = driver.outbox.len() as int;
            &&& after.state is Sealing
            &&& after.control_revision == driver.control_revision
            &&& after.outbox.len() == n + 2
            &&& after.outbox[n] == DriverEffect::Status(
                ManagedStatus::Stopping { control_revision: driver.control_revision },
            )
            &&& after.outbox[n + 1] == DriverEffect::Event(ManagedEvent::Stopping)
        }),
{
}

/// `after` is `driver` at its end: what it still owed to its queue comes first,
/// then the report of the end, the status of it, and the end of the events.
pub open spec fn ended_as(
    driver: DriverView,
    after: DriverView,
    queued: Seq<ManagedCommand>,
    event: ManagedEvent,
    status: ManagedStatus,
) -> bool {
    let last = after.outbox.len() - 1;
    &&& after.state is Finished
    &&& !after.abandonment_guard_armed
    &&& after.control_revision == driver.control_revision
    &&& after.outbox.len() == driver.outbox.len() + queued.filter(
        |command: ManagedCommand| command is Barrier,
    ).len() + 3
    &&& after.outbox[last - 2] == DriverEffect::Event(event)
    &&& after.outbox[last - 1] == DriverEffect::Status(status)
    &&& after.outbox[last] is CloseEvents
}

/// A driver that ends in order reports the revision it has come to. One that
/// fails reports its error. One that is dropped reports that it was abandoned,
/// or that its worker panicked where it runs on one that does.
pub proof fn law_driver_ends(
    driver: DriverView,
    error: ManagedRunError,
    queued: Seq<ManagedCommand>,
    panicking: bool,
)
    ensures
        ended_as(
            driver,
            driver.sealed(queued),
            queued,
            ManagedEvent::Completed(ManagedOutcome { control_revision: driver.control_revision }),
            ManagedStatus::Completed(ManagedOutcome { control_revision: driver.control_revision }),
        ),
        ended_as(
            driver,
            driver.failed(error, queued),
            queued,
            ManagedEvent::Failed { error },
            ManagedStatus::Failed { error },
        ),
        driver.abandonment_guard_armed && driver.blocking_worker && panicking ==> ended_as(
            driver,
            driver.dropped(panicking, queued),
            queued,
            ManagedEvent::Failed { error: ManagedRunError::WorkerPanicked },
            ManagedStatus::Failed { error: ManagedRunError::WorkerPanicked },
        ),
        driver.abandonment_guard_armed && !(driver.blocking_worker && panicking) ==> ended_as(
            driver,
            driver.dropped(panicking, queued),
            queued,
            ManagedEvent::Abandoned,
            ManagedStatus::Abandoned,
        ),
        !driver.abandonment_guard_armed ==> driver.dropped(panicking, queued) == driver,
{
    law_queued_barriers_are_accounted_for(queued);
}

/// The barriers that a queue still held are answered in the order in which they
/// were queued: refused where the driver ends in order, and lost otherwise.
pub proof fn law_queued_barriers_are_answered_in_order(queued: Seq<ManagedCommand>, i: int)
    requires
        0 <= i < queued.len(),
    ensures
        ({
            let place = queued.take(i).filter(|command: ManagedCommand| command is Barrier).len();
            queued[i] matches ManagedCommand::Barrier { ticket } ==> {
                &&& place < answers(queued, too_late()).len()
                &&& answers(queued, too_late())[place as int] == (DriverEffect::Answer {
                    ticket,
                    result: Err(ManagedCommandError::Stopping),
                })
                &&& place < answers(queued, lost()).len()
                &&& answers(queued, lost())[place as int] == (DriverEffect::Disconnect { ticket })
            }
        }),
    decreases queued.len(),
{
    let rest = queued.drop_last();
    law_queued_barriers_are_accounted_for(rest);
    if i < rest.len() {
        assert(rest[i] == queued[i]);
        assert(rest.take(i) =~= queued.take(i));
        law_queued_barriers_are_answered_in_order(rest, i);
    } else {
        assert(queued.take(i) =~= rest);
    }
}

} // verus!
