//! The stream driver: pulls oplog documents one at a time, feeds each into
//! the aggregate table, enforces the processing limit and the reporting
//! cadence, and preserves everything aggregated before a mid-stream failure.
//!
//! The driver is a state machine over three states.  Each pull from the
//! producer becomes one event handed to [`StreamDriver::step`]; the loop
//! that performs the pulls lives with the caller, so the driver works the
//! same over a network cursor and over an in-memory list of events.

use vstd::prelude::*;

use crate::extract::spec_extract;
use crate::extract::ExtractError;
use crate::oplog_stats::sum_sizes;
use crate::oplog_stats::updated_with;
use crate::oplog_stats::OplogStats;
use crate::oplog_stats::UpdateError;

verus! {

/// One pull from the document producer, as the driver sees it.
pub enum PullEvent {
    /// The producer yielded a document.
    Doc(bson::Document),
    /// The producer reached the end of the available data.
    End,
    /// The producer failed to yield the next document.
    Fail,
}

/// The driver's state: running until the limit is exhausted or the
/// producer ends (Completed), or until a document cannot be absorbed or
/// the producer fails (Failed).  In both terminal states the aggregate
/// table stays readable, with everything aggregated up to that point.
#[derive(Clone, Copy, Debug, PartialEq, Eq, Structural)]
pub enum DriverState {
    /// The driver accepts further events.
    Running,
    /// The limit was exhausted or the producer ended.
    Completed,
    /// A document could not be absorbed, or the producer failed.
    Failed,
}

/// Why a run failed.
#[derive(Clone, Copy, Debug, PartialEq, Eq, Structural)]
pub enum RunError {
    /// A document's key or size could not be extracted.
    Extract(ExtractError),
    /// Absorbing a document would grow a counter beyond its range.
    CounterOverflow,
    /// The producer failed to yield the next document.
    Producer,
}

/// Why a driver could not be configured.
#[derive(Clone, Copy, Debug, PartialEq, Eq, Structural)]
pub enum ConfigError {
    /// A reporting cadence of zero documents was requested; the cadence
    /// must be positive.
    ZeroCadence,
}

/// What one step asks of the caller.
pub struct StepOutcome {
    /// Report the current snapshot now: set exactly when a cadence is
    /// configured and the processed count just reached a multiple of it.
    pub report_now: bool,
    /// Why the driver failed, when this step failed it.
    pub error: Option<RunError>,
}

/// The stream driver.
pub struct StreamDriver {
    /// How many more documents may be processed.
    remaining: u64,
    /// Report the snapshot after every so many processed documents.
    print_after: Option<u64>,
    /// The driver's state.
    state: DriverState,
}

impl StreamDriver {
    /// How many more documents the driver will process.
    pub closed spec fn spec_remaining(self) -> u64 {
        self.remaining
    }

    /// The configured reporting cadence.
    pub closed spec fn spec_cadence(self) -> Option<u64> {
        self.print_after
    }

    /// The driver's state.
    pub closed spec fn spec_state(self) -> DriverState {
        self.state
    }

    /// The driver's invariant: a configured cadence is positive, and a
    /// running driver has processing budget left.
    pub open spec fn inv(self) -> bool {
        &&& (self.spec_cadence() matches Some(n) ==> n > 0)
        &&& (self.spec_state() is Running ==> self.spec_remaining() > 0)
    }

    /// Creates a driver that will process at most `limit` documents and
    /// ask for a report after every `print_after` of them.  A zero cadence
    /// is rejected eagerly, before any document is pulled; a zero limit
    /// completes the run before any document is pulled.
    pub fn new(limit: u64, print_after: Option<u64>) -> (r: Result<StreamDriver, ConfigError>)
        ensures
            (match r {
                Ok(d) => {
                    &&& print_after != Some(0u64)
                    &&& d.inv()
                    &&& d.spec_remaining() == limit
                    &&& d.spec_cadence() == print_after
                    &&& d.spec_state() == (if limit == 0 {
                        DriverState::Completed
                    } else {
                        DriverState::Running
                    })
                },
                Err(e) => e == ConfigError::ZeroCadence && print_after == Some(0u64),
            }),
    {
        if let Some(n) = print_after {
            if n == 0 {
                return Err(ConfigError::ZeroCadence);
            }
        }
        let state = if limit == 0 {
            DriverState::Completed
        } else {
            DriverState::Running
        };
        Ok(StreamDriver { remaining: limit, print_after, state })
    }

    /// The driver's state, for the caller's loop.
    pub fn state(&self) -> (r: DriverState)
        ensures
            r == self.spec_state(),
    {
        self.state
    }

    /// Whether the driver accepts further events.
    pub fn is_running(&self) -> (r: bool)
        ensures
            r == (self.spec_state() is Running),
    {
        matches!(self.state, DriverState::Running)
    }

    /// Feeds one pulled event to the driver.  A yielded document is
    /// extracted and absorbed into the table, spending one unit of the
    /// limit; the end of the stream completes the run; an extraction
    /// failure, a counter at its range limit, or a producer failure fails
    /// the run.  In every case the table keeps everything aggregated
    /// before the event, and on failure it is left exactly as it was.
    pub fn step(&mut self, stats: &mut OplogStats, event: PullEvent) -> (r: StepOutcome)
        requires
            old(self).inv(),
            old(self).spec_state() is Running,
            old(stats).inv(),
        ensures
            final(self).inv(),
            final(stats).inv(),
            final(self).spec_cadence() == old(self).spec_cadence(),
            (match event {
                PullEvent::End => {
                    &&& final(self).spec_state() is Completed
                    &&& final(self).spec_remaining() == old(self).spec_remaining()
                    &&& *final(stats) == *old(stats)
                    &&& r.error is None
                    &&& !r.report_now
                },
                PullEvent::Fail => {
                    &&& final(self).spec_state() is Failed
                    &&& *final(stats) == *old(stats)
                    &&& r.error == Some(RunError::Producer)
                    &&& !r.report_now
                },
                PullEvent::Doc(d) => (match spec_extract(d) {
                    Err(e) => {
                        &&& final(self).spec_state() is Failed
                        &&& *final(stats) == *old(stats)
                        &&& r.error == Some(RunError::Extract(e))
                        &&& !r.report_now
                    },
                    Ok(p) => {
                        if old(stats).processed_count() < u64::MAX && sum_sizes(old(stats)@)
                            + p.1 <= u64::MAX {
                            &&& final(stats).processed_count() == old(stats).processed_count()
                                + 1
                            &&& sum_sizes(final(stats)@) == sum_sizes(old(stats)@) + p.1
                            &&& updated_with(final(stats)@, old(stats)@, p.0, p.1)
                            &&& final(self).spec_remaining() == old(self).spec_remaining() - 1
                            &&& final(self).spec_state() == (if old(self).spec_remaining() == 1 {
                                DriverState::Completed
                            } else {
                                DriverState::Running
                            })
                            &&& r.error is None
                            &&& r.report_now == (match old(self).spec_cadence() {
                                Some(n) => (old(stats).processed_count() + 1) % (n as int) == 0,
                                None => false,
                            })
                        } else {
                            &&& final(self).spec_state() is Failed
                            &&& *final(stats) == *old(stats)
                            &&& r.error == Some(RunError::CounterOverflow)
                            &&& !r.report_now
                        }
                    },
                }),
            }),
    {
        match event {
            PullEvent::End => {
                self.state = DriverState::Completed;
                StepOutcome { report_now: false, error: None }
            },
            PullEvent::Fail => {
                self.state = DriverState::Failed;
                StepOutcome { report_now: false, error: Some(RunError::Producer) }
            },
            PullEvent::Doc(d) => {
                match stats.update(&d) {
                    Err(UpdateError::Extract(e)) => {
                        self.state = DriverState::Failed;
                        StepOutcome { report_now: false, error: Some(RunError::Extract(e)) }
                    },
                    Err(UpdateError::CounterOverflow) => {
                        self.state = DriverState::Failed;
                        StepOutcome { report_now: false, error: Some(RunError::CounterOverflow) }
                    },
                    Ok(()) => {
                        self.remaining = self.remaining - 1;
                        if self.remaining == 0 {
                            self.state = DriverState::Completed;
                        }
                        let report_now = match self.print_after {
                            Some(n) => stats.get_processed_doc_count() % n == 0,
                            None => false,
                        };
                        StepOutcome { report_now, error: None }
                    },
                }
            },
        }
    }
}

} // verus!
