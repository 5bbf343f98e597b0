use irtt_client::driver::{
    barrier_result, join_result, receipt_result, DriverEffect, DriverPoll, DriverState,
    ManagedClientTask, ManagedCommand, ManagedCommandAck, ManagedCommandError, ManagedEvent,
    ManagedOutcome, ManagedRunError, ManagedStatus, Offer, Received, StopLatch, COMMAND_CAPACITY,
};

/// A driver with its latch, its bounded queue and what it made known so far.
struct Fixture {
    task: ManagedClientTask,
    latch: StopLatch,
    queue: Vec<ManagedCommand>,
    handles_gone: bool,
    status: ManagedStatus,
    events: Vec<ManagedEvent>,
    events_open: bool,
    answers: Vec<(u64, Option<Result<ManagedCommandAck, ManagedCommandError>>)>,
    order: Vec<&'static str>,
}

impl Fixture {
    fn new() -> Fixture {
        Fixture {
            task: ManagedClientTask::new(),
            latch: StopLatch::new(),
            queue: vec![],
            handles_gone: false,
            status: ManagedStatus::NotStarted,
            events: vec![],
            events_open: true,
            answers: vec![],
            order: vec![],
        }
    }

    fn barrier(&mut self, ticket: u64) -> Result<(), ManagedCommandError> {
        self.latch.admit_barrier()?;
        let offer = if self.queue.len() < COMMAND_CAPACITY {
            self.queue.push(ManagedCommand::Barrier { ticket });
            Offer::Sent
        } else {
            Offer::Full
        };
        barrier_result(offer)
    }

    fn stop(&mut self) {
        if self.latch.close() && self.queue.len() < COMMAND_CAPACITY {
            self.queue.push(ManagedCommand::Wakeup);
        }
    }

    fn perform(&mut self) {
        for effect in self.task.take_outbox() {
            match effect {
                DriverEffect::Status(status) => {
                    self.order.push("status");
                    self.status = status;
                }
                DriverEffect::Event(event) => {
                    self.order.push("event");
                    assert!(self.events_open);
                    self.events.push(event);
                }
                DriverEffect::Answer { ticket, result } => {
                    self.order.push("answer");
                    self.answers.push((ticket, Some(result)));
                }
                DriverEffect::Disconnect { ticket } => {
                    self.order.push("disconnect");
                    self.answers.push((ticket, None));
                }
                DriverEffect::CloseEvents => self.events_open = false,
            }
        }
    }

    fn receive(&mut self) -> Received {
        if !self.queue.is_empty() {
            Received::Command(self.queue.remove(0))
        } else if self.handles_gone {
            Received::Disconnected
        } else {
            Received::Pending
        }
    }

    /// One poll, with the result where the driver ended.
    fn poll(&mut self, runtime: bool) -> Option<Result<ManagedOutcome, ManagedRunError>> {
        let queued = if runtime || self.task.state != DriverState::NotStarted {
            vec![]
        } else {
            std::mem::take(&mut self.queue)
        };
        let mut next = self.task.begin_poll(&mut self.latch, runtime, queued);
        loop {
            self.perform();
            match next {
                DriverPoll::Pending => return None,
                DriverPoll::Receive => {
                    let received = self.receive();
                    next = self.task.receive_command(&mut self.latch, received);
                }
                DriverPoll::Seal => {
                    let queued = std::mem::take(&mut self.queue);
                    let outcome = self.task.finish_gracefully(queued);
                    self.perform();
                    return Some(Ok(outcome));
                }
                DriverPoll::Failed { error } => return Some(Err(error)),
            }
        }
    }

    fn release(&mut self, panicking: bool) {
        let queued = if self.task.abandonment_guard_armed {
            std::mem::take(&mut self.queue)
        } else {
            vec![]
        };
        self.task.release(&mut self.latch, panicking, queued);
        self.perform();
    }

    fn receipt(&self, ticket: u64) -> Result<ManagedCommandAck, ManagedCommandError> {
        let (_, answer) = self
            .answers
            .iter()
            .find(|(answered, _)| *answered == ticket)
            .unwrap();
        receipt_result(*answer)
    }
}

fn completed(control_revision: u64) -> ManagedStatus {
    ManagedStatus::Completed(ManagedOutcome { control_revision })
}

#[test]
fn start_async_constructs_outside_tokio() {
    let mut driver = Fixture::new();
    assert_eq!(driver.status, ManagedStatus::NotStarted);
    driver.release(false);
    assert_eq!(driver.status, ManagedStatus::Abandoned);
}

#[test]
fn task_constructed_outside_tokio_runs_inside_current_thread_runtime() {
    let mut driver = Fixture::new();
    driver.stop();
    let outcome = driver.poll(true).unwrap().unwrap();
    assert_eq!(outcome.control_revision, 0);
    assert_eq!(driver.status, ManagedStatus::Completed(outcome));
}

#[test]
fn first_poll_without_tokio_is_a_durable_startup_failure() {
    let mut driver = Fixture::new();
    assert_eq!(driver.poll(false), Some(Err(ManagedRunError::NoRuntime)));
    assert_eq!(
        driver.status,
        ManagedStatus::Failed {
            error: ManagedRunError::NoRuntime
        }
    );
}

#[test]
fn never_polled_task_drop_records_abandoned() {
    let mut driver = Fixture::new();
    driver.release(false);

    assert_eq!(driver.status, ManagedStatus::Abandoned);
    assert_eq!(driver.events, vec![ManagedEvent::Abandoned]);
    assert!(!driver.events_open);
}

#[test]
fn dropping_running_task_records_abandoned_and_disconnects_ack() {
    let mut driver = Fixture::new();
    assert_eq!(driver.poll(true), None);
    driver.barrier(1).unwrap();

    driver.release(false);
    assert_eq!(driver.status, ManagedStatus::Abandoned);
    assert_eq!(
        driver.receipt(1),
        Err(ManagedCommandError::AcknowledgementDisconnected)
    );
}

#[test]
fn completed_task_drop_does_not_overwrite_terminal_status() {
    let mut driver = Fixture::new();
    driver.stop();
    let outcome = driver.poll(true).unwrap().unwrap();
    assert_eq!(driver.status, ManagedStatus::Completed(outcome));

    driver.release(false);
    assert_eq!(driver.status, ManagedStatus::Completed(outcome));
}

#[test]
fn handle_requests_but_cannot_drive_completion() {
    let mut driver = Fixture::new();
    driver.stop();
    assert_eq!(driver.status, ManagedStatus::NotStarted);

    let outcome = driver.poll(true).unwrap().unwrap();
    assert_eq!(driver.status, ManagedStatus::Completed(outcome));
}

#[test]
fn final_handle_drop_requests_graceful_stop() {
    let mut driver = Fixture::new();
    assert_eq!(driver.poll(true), None);
    assert_eq!(
        driver.status,
        ManagedStatus::Running {
            control_revision: 0
        }
    );
    driver.handles_gone = true;
    assert!(driver.poll(true).unwrap().is_ok());
    assert_eq!(driver.status, completed(0));
    assert!(!driver.latch.is_open());
}

#[test]
fn stop_completes_when_bounded_command_queue_is_full() {
    let mut driver = Fixture::new();
    driver.barrier(1).unwrap();
    assert_eq!(driver.barrier(2), Err(ManagedCommandError::QueueFull));

    driver.stop();
    let outcome = driver.poll(true).unwrap().unwrap();
    assert_eq!(outcome.control_revision, 0);
    assert_eq!(driver.receipt(1), Err(ManagedCommandError::Stopping));
}

#[test]
fn acknowledgement_follows_durable_status_mutation() {
    let mut driver = Fixture::new();
    driver.barrier(1).unwrap();
    assert_eq!(driver.poll(true), None);

    assert_eq!(driver.receipt(1), Ok(ManagedCommandAck { revision: 1 }));
    assert_eq!(
        driver.status,
        ManagedStatus::Running {
            control_revision: 1
        }
    );
    assert_eq!(driver.order[2..], ["status", "event", "answer"]);
    driver.stop();
    assert!(driver.poll(true).unwrap().is_ok());
}

#[test]
fn accepted_command_applies_after_receipt_is_dropped() {
    let mut driver = Fixture::new();
    driver.barrier(1).unwrap();
    assert_eq!(driver.poll(true), None);
    assert_eq!(
        driver.status,
        ManagedStatus::Running {
            control_revision: 1
        }
    );
    driver.stop();
    assert_eq!(driver.poll(true).unwrap().unwrap().control_revision, 1);
}

#[test]
fn existing_events_drain_after_terminal_sender_drop() {
    let mut driver = Fixture::new();
    driver.stop();
    let outcome = driver.poll(true).unwrap().unwrap();

    assert_eq!(
        driver.events,
        vec![
            ManagedEvent::Started,
            ManagedEvent::Stopping,
            ManagedEvent::Completed(outcome)
        ]
    );
    assert!(!driver.events_open);
}

#[test]
fn new_subscription_fails_after_completion() {
    let mut driver = Fixture::new();
    assert!(driver.events_open);
    driver.stop();
    assert!(driver.poll(true).unwrap().is_ok());
    assert!(!driver.events_open);
}

#[test]
fn final_status_remains_readable_after_completion() {
    let mut driver = Fixture::new();
    driver.stop();
    let outcome = driver.poll(true).unwrap().unwrap();
    assert_eq!(driver.status, ManagedStatus::Completed(outcome));
}

#[test]
fn worker_panic_maps_to_failure_not_abandonment() {
    let mut driver = Fixture::new();
    driver.task.blocking_worker = true;
    driver.release(true);

    assert_eq!(join_result(None), Err(ManagedRunError::WorkerPanicked));
    assert_eq!(
        driver.status,
        ManagedStatus::Failed {
            error: ManagedRunError::WorkerPanicked
        }
    );
}

#[test]
fn panic_outside_a_worker_is_abandonment() {
    let mut driver = Fixture::new();
    driver.release(true);
    assert_eq!(driver.status, ManagedStatus::Abandoned);
}

#[test]
fn command_that_meets_a_closed_latch_is_refused() {
    let mut driver = Fixture::new();
    assert_eq!(driver.poll(true), None);
    driver.barrier(1).unwrap();
    driver.queue.push(ManagedCommand::Barrier { ticket: 2 });
    let next = driver.task.begin_poll(&mut driver.latch, true, vec![]);
    assert_eq!(next, DriverPoll::Receive);
    driver.stop();
    let received = driver.receive();
    let next = driver.task.receive_command(&mut driver.latch, received);
    assert_eq!(next, DriverPoll::Seal);
    let queued = std::mem::take(&mut driver.queue);
    driver.task.finish_gracefully(queued);
    driver.perform();
    assert_eq!(driver.receipt(1), Err(ManagedCommandError::Stopping));
    assert_eq!(driver.receipt(2), Err(ManagedCommandError::Stopping));
    assert_eq!(driver.barrier(3), Err(ManagedCommandError::Stopping));
    assert_eq!(
        barrier_result(Offer::Closed),
        Err(ManagedCommandError::DriverClosed)
    );
}

#[test]
fn runtime_build_failure_is_durable() {
    let mut driver = Fixture::new();
    driver.barrier(1).unwrap();
    let queued = std::mem::take(&mut driver.queue);
    let error = ManagedRunError::RuntimeBuild {
        message: "no epoll".to_owned(),
    };
    driver
        .task
        .seal_failure(&mut driver.latch, error.clone(), queued);
    driver.perform();
    assert_eq!(driver.status, ManagedStatus::Failed { error });
    assert_eq!(
        driver.receipt(1),
        Err(ManagedCommandError::AcknowledgementDisconnected)
    );
}

#[test]
fn revisions_stop_at_the_limit() {
    let mut driver = Fixture::new();
    driver.task.control_revision = u64::MAX - 1;
    driver
        .task
        .apply_command(ManagedCommand::Barrier { ticket: 1 });
    driver
        .task
        .apply_command(ManagedCommand::Barrier { ticket: 2 });
    driver.task.apply_command(ManagedCommand::Wakeup);
    driver.perform();
    assert_eq!(driver.receipt(1).unwrap().revision, u64::MAX);
    assert_eq!(driver.receipt(2).unwrap().revision, u64::MAX);
}
