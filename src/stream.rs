//! The streaming loop's decisions: how many bulk reads are in flight, what to do with
//! each completed buffer, and when to cancel, drain and stop. The caller performs each
//! action on the transfer pool and reports back what happened.
use vstd::prelude::*;

verus! {

/// Bytes per bulk read.
pub const PACKET_SIZE: usize = 131072;

/// Bulk reads kept in flight.
pub const NUM_TRANSFERS: usize = 32;

/// The bulk IN endpoint that carries samples.
pub const BULK_ENDPOINT: u8 = 0x81;

/// How long one poll waits for a completed read, in milliseconds.
pub const POLL_TIMEOUT_MS: u64 = 1000;

/// Nanoseconds between two rate reports.
pub const REPORT_INTERVAL_NANOS: u64 = 1_000_000_000;

/// The number of 16-bit samples in a buffer of `len` bytes.
pub fn samples_in(len: usize) -> (r: usize)
    ensures
        r == len / 2,
{
    len / 2
}

/// What a poll gave, told apart by its success and by how the number of pending
/// reads moved: a timeout removes none, an ended read one, and an empty pool has none
/// to poll.
pub fn poll_outcome(ok: bool, pending_before: usize, pending_after: usize) -> (r: PollOutcome)
    ensures
        r == if ok {
            PollOutcome::Completed
        } else if pending_before == 0 {
            PollOutcome::NothingPending
        } else if pending_after == pending_before {
            PollOutcome::Timeout
        } else {
            PollOutcome::Failed
        },
{
    if ok {
        PollOutcome::Completed
    } else if pending_before == 0 {
        PollOutcome::NothingPending
    } else if pending_after == pending_before {
        PollOutcome::Timeout
    } else {
        PollOutcome::Failed
    }
}

/// Where the loop stands.
#[derive(Debug, Clone, Copy, PartialEq, Eq, Structural)]
pub enum Phase {
    /// Filling the pool up to its capacity.
    Priming,
    /// Polling, handling and resubmitting buffers.
    Running,
    /// Cancelled; waiting for every read to end.
    Draining,
    /// Every read has ended; the device is being stopped.
    Stopped,
}

/// What the caller is to do next.
#[derive(Debug, Clone, Copy, PartialEq, Eq, Structural)]
pub enum Action {
    /// Submit a fresh buffer of `PACKET_SIZE` bytes.
    Submit,
    /// Submit again the buffer that was just handled.
    Resubmit,
    /// Poll the pool for a completed read.
    Poll,
    /// Ask the pool to cancel every read in flight.
    CancelAll,
    /// Send the device its downclock and stop commands.
    Shutdown,
    /// Nothing is left to do.
    Finish,
}

/// What one poll of the pool gave.
#[derive(Debug, Clone, Copy, PartialEq, Eq, Structural)]
pub enum PollOutcome {
    /// A read completed with data; it has left the pool.
    Completed,
    /// A read ended without data (cancelled, stalled, device gone); it has left the pool.
    Failed,
    /// No read completed in time; nothing left the pool.
    Timeout,
    /// The pool held no reads.
    NothingPending,
}

/// A fatal error of the streaming loop.
#[derive(Debug, Clone, Copy, PartialEq, Eq, Structural)]
pub enum StreamError {
    /// The pool refused a buffer.
    SubmitFailed,
    /// A read failed while streaming.
    TransferFailed,
    /// The pool was empty while reads were expected in flight.
    NothingPending,
}

/// What to do with a completed buffer before it is resubmitted.
#[derive(Debug, Clone, Copy, PartialEq, Eq, Structural)]
pub struct Delivery {
    /// Apply the sample transform in place.
    pub transform: bool,
    /// Write the buffer to the output sink.
    pub write: bool,
    /// Record the buffer's sample count and maybe report the rate.
    pub record: bool,
}

/// The state of the streaming loop.
pub struct StreamLoop {
    phase: Phase,
    outstanding: usize,
    capacity: usize,
    holding: bool,
    randomize: bool,
    measure: bool,
    has_sink: bool,
}

impl StreamLoop {
    pub closed spec fn phase_spec(&self) -> Phase {
        self.phase
    }

    /// Reads in flight.
    pub closed spec fn outstanding_spec(&self) -> nat {
        self.outstanding as nat
    }

    /// Most reads in flight at once.
    pub closed spec fn capacity_spec(&self) -> nat {
        self.capacity as nat
    }

    /// Whether the caller holds a handled buffer that is still to be resubmitted.
    pub closed spec fn holding_spec(&self) -> bool {
        self.holding
    }

    /// How each completed buffer is handled: transformed when the transform is on,
    /// written when there is a sink, recorded when measuring or when there is no sink.
    pub closed spec fn delivery_spec(&self) -> Delivery {
        Delivery {
            transform: self.randomize,
            write: self.has_sink,
            record: self.measure || !self.has_sink,
        }
    }

    /// Never more reads in flight than the capacity; a held buffer has a free slot to
    /// go back to; once stopped, no read is in flight.
    pub closed spec fn wf(&self) -> bool {
        &&& self.outstanding <= self.capacity
        &&& self.holding ==> self.outstanding < self.capacity && self.phase == Phase::Running
        &&& self.phase == Phase::Stopped ==> self.outstanding == 0
    }

    /// A loop about to fill a pool of `capacity` reads; `randomize` asks for the sample
    /// transform, `measure` for rate reports, `has_sink` says whether output goes
    /// anywhere.
    pub fn new(capacity: usize, randomize: bool, measure: bool, has_sink: bool) -> (r: Self)
        ensures
            r.wf(),
            r.phase_spec() == Phase::Priming,
            r.outstanding_spec() == 0,
            r.capacity_spec() == capacity,
            !r.holding_spec(),
            r.delivery_spec() == (Delivery {
                transform: randomize,
                write: has_sink,
                record: measure || !has_sink,
            }),
    {
        StreamLoop {
            phase: Phase::Priming,
            outstanding: 0,
            capacity,
            holding: false,
            randomize,
            measure,
            has_sink,
        }
    }

    /// The number of reads in flight.
    pub fn outstanding_count(&self) -> (r: usize)
        requires
            self.wf(),
        ensures
            r == self.outstanding_spec(),
            r <= self.capacity_spec(),
    {
        self.outstanding
    }

    /// The phase the loop is in.
    pub fn phase(&self) -> (r: Phase)
        ensures
            r == self.phase_spec(),
    {
        self.phase
    }

    /// The next action. `cancelled` is the cancellation flag as read now; it is
    /// looked at only between buffers while running.
    pub fn next_action(&mut self, cancelled: bool) -> (r: Action)
        requires
            old(self).wf(),
        ensures
            final(self).wf(),
            final(self).outstanding_spec() == old(self).outstanding_spec(),
            final(self).capacity_spec() == old(self).capacity_spec(),
            final(self).holding_spec() == old(self).holding_spec(),
            final(self).delivery_spec() == old(self).delivery_spec(),
            r == Action::Submit ==> final(self).outstanding_spec() < final(self).capacity_spec(),
            r == Action::Resubmit ==> final(self).holding_spec(),
            r == Action::Shutdown ==> final(self).outstanding_spec() == 0,
            old(self).phase_spec() == Phase::Priming && old(self).outstanding_spec()
                < old(self).capacity_spec() ==> r == Action::Submit && final(self).phase_spec()
                == Phase::Priming,
            old(self).phase_spec() == Phase::Priming && old(self).outstanding_spec()
                >= old(self).capacity_spec() ==> if cancelled {
                r == Action::CancelAll && final(self).phase_spec() == Phase::Draining
            } else {
                r == Action::Poll && final(self).phase_spec() == Phase::Running
            },
            old(self).phase_spec() == Phase::Running && old(self).holding_spec() ==> r
                == Action::Resubmit && final(self).phase_spec() == Phase::Running,
            old(self).phase_spec() == Phase::Running && !old(self).holding_spec() ==> if cancelled {
                r == Action::CancelAll && final(self).phase_spec() == Phase::Draining
            } else {
                r == Action::Poll && final(self).phase_spec() == Phase::Running
            },
            old(self).phase_spec() == Phase::Draining ==> if old(self).outstanding_spec() > 0 {
                r == Action::Poll && final(self).phase_spec() == Phase::Draining
            } else {
                r == Action::Shutdown && final(self).phase_spec() == Phase::Stopped
            },
            old(self).phase_spec() == Phase::Stopped ==> r == Action::Finish
                && final(self).phase_spec() == Phase::Stopped,
    {
        if self.phase == Phase::Priming {
            if self.outstanding < self.capacity {
                return Action::Submit;
            }
            self.phase = Phase::Running;
        }
        match self.phase {
            Phase::Running => {
                if self.holding {
                    Action::Resubmit
                } else if cancelled {
                    self.phase = Phase::Draining;
                    Action::CancelAll
                } else {
                    Action::Poll
                }
            },
            Phase::Draining => {
                if self.outstanding > 0 {
                    Action::Poll
                } else {
                    self.phase = Phase::Stopped;
                    Action::Shutdown
                }
            },
            _ => Action::Finish,
        }
    }

    /// Reports the result of a `Submit` or `Resubmit`: on success one more read is in
    /// flight and a held buffer is no longer held; a refusal is fatal.
    pub fn on_submit(&mut self, ok: bool) -> (r: Result<(), StreamError>)
        requires
            old(self).wf(),
            old(self).outstanding_spec() < old(self).capacity_spec(),
            old(self).phase_spec() == Phase::Priming || old(self).phase_spec() == Phase::Running,
        ensures
            final(self).wf(),
            final(self).capacity_spec() == old(self).capacity_spec(),
            final(self).phase_spec() == old(self).phase_spec(),
            final(self).delivery_spec() == old(self).delivery_spec(),
            ok ==> r is Ok && final(self).outstanding_spec() == old(self).outstanding_spec() + 1
                && !final(self).holding_spec(),
            !ok ==> r == Err::<(), StreamError>(StreamError::SubmitFailed) && final(self).outstanding_spec()
                == old(self).outstanding_spec(),
    {
        if ok {
            self.outstanding = self.outstanding + 1;
            self.holding = false;
            Ok(())
        } else {
            Err(StreamError::SubmitFailed)
        }
    }

    /// Reports what a `Poll` gave. While running, a completed buffer is to be handled
    /// as the returned delivery says and then resubmitted; a timeout is no error; a
    /// failed read is fatal. While draining, every read that ends leaves the count.
    pub fn on_poll(&mut self, outcome: PollOutcome) -> (r: Result<Option<Delivery>, StreamError>)
        requires
            old(self).wf(),
            !old(self).holding_spec(),
        ensures
            final(self).wf(),
            final(self).capacity_spec() == old(self).capacity_spec(),
            final(self).phase_spec() == old(self).phase_spec(),
            final(self).delivery_spec() == old(self).delivery_spec(),
            old(self).phase_spec() == Phase::Running && outcome == PollOutcome::Completed
                && old(self).outstanding_spec() == 0 ==> r == Err::<Option<Delivery>, StreamError>(
                StreamError::NothingPending,
            ),
            outcome == PollOutcome::Timeout ==> r == Ok::<Option<Delivery>, StreamError>(None)
                && final(self).outstanding_spec() == old(self).outstanding_spec(),
            (outcome == PollOutcome::Completed || outcome == PollOutcome::Failed)
                && old(self).outstanding_spec() > 0 ==> final(self).outstanding_spec()
                == old(self).outstanding_spec() - 1,
            outcome == PollOutcome::NothingPending ==> final(self).outstanding_spec() == 0,
            old(self).phase_spec() == Phase::Running && outcome == PollOutcome::Completed
                && old(self).outstanding_spec() > 0 ==> r == Ok::<Option<Delivery>, StreamError>(
                Some(old(self).delivery_spec()),
            ) && final(self).holding_spec(),
            old(self).phase_spec() == Phase::Running && outcome == PollOutcome::Failed ==> r
                == Err::<Option<Delivery>, StreamError>(StreamError::TransferFailed),
            old(self).phase_spec() == Phase::Running && outcome == PollOutcome::NothingPending
                ==> r == Err::<Option<Delivery>, StreamError>(StreamError::NothingPending),
            old(self).phase_spec() != Phase::Running && outcome != PollOutcome::NothingPending
                ==> r == Ok::<Option<Delivery>, StreamError>(None),
            old(self).phase_spec() != Phase::Running ==> !final(self).holding_spec(),
    {
        match outcome {
            PollOutcome::Timeout => Ok(None),
            PollOutcome::NothingPending => {
                self.outstanding = 0;
                if self.phase == Phase::Running {
                    Err(StreamError::NothingPending)
                } else {
                    Ok(None)
                }
            },
            PollOutcome::Failed => {
                if self.outstanding > 0 {
                    self.outstanding = self.outstanding - 1;
                }
                if self.phase == Phase::Running {
                    Err(StreamError::TransferFailed)
                } else {
                    Ok(None)
                }
            },
            PollOutcome::Completed => {
                if self.outstanding > 0 {
                    self.outstanding = self.outstanding - 1;
                } else {
                    return if self.phase == Phase::Running {
                        Err(StreamError::NothingPending)
                    } else {
                        Ok(None)
                    };
                }
                if self.phase == Phase::Running {
                    self.holding = true;
                    Ok(
                        Some(
                            Delivery {
                                transform: self.randomize,
                                write: self.has_sink,
                                record: self.measure || !self.has_sink,
                            },
                        ),
                    )
                } else {
                    Ok(None)
                }
            },
        }
    }
}

/// Whatever the pool reports, the loop never counts more reads in flight than its
/// capacity: every step keeps the bound.
pub proof fn lemma_outstanding_bounded(s: &StreamLoop)
    requires
        s.wf(),
    ensures
        s.outstanding_spec() <= s.capacity_spec(),
        s.phase_spec() == Phase::Stopped ==> s.outstanding_spec() == 0,
{
}

} // verus!
