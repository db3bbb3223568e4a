//! The observation of one exchange with a peer, and of one task. Whatever way it ends, each stage is
//! timed once.

use crate::diagnostics::aggregate::{
    failure_key, Diagnostics, DiagnosticsModel, Observation,
};
use crate::diagnostics::endpoints::{elapsed, kept, outcome_of, CAPACITY};
use crate::diagnostics::keys::{
    failure_reason, reason_of, AttemptContext, AttemptKey, AttemptResult, Deadline, FailureKey,
    FailureReason, HandshakeKey, PeerError, PeerKey, ResultKind, Stage, TaskTiming,
};
use crate::diagnostics::snapshot::Event;
use crate::endpoint::Endpoint;
use crate::jobs::model::AttemptKind;
use crate::selector::Source;
use vstd::prelude::*;

verus! {

/// The full milliseconds from `then` to `now`, both in nanoseconds.
pub open spec fn elapsed_millis(then: u64, now: u64) -> u64 {
    (elapsed(then, now) / 1_000_000) as u64
}

/// The full milliseconds from `then` to `now`.
pub fn millis_between(then: u64, now: u64) -> (millis: u64)
    ensures
        millis == elapsed_millis(then, now),
{
    if now < then {
        0
    } else {
        (now - then) / 1_000_000
    }
}

/// How an extension handshake was read.
#[derive(Clone, Copy, Debug, PartialEq, Eq, Structural)]
pub enum FrameOutcome {
    /// It was accepted though its keys are out of order.
    UnsortedCompatible,
    /// It was refused as a broken dictionary.
    InvalidDictionary,
    /// Anything else.
    Plain,
}

/// The observation of one exchange.
#[derive(Clone, Copy, Debug, PartialEq, Eq, Structural)]
pub struct PeerObservation {
    /// Whether a frame with keys out of order was accepted.
    pub used_extension_compatibility: bool,
    /// Whether a download of such a session was counted.
    pub compatibility_downloaded: bool,
    pub connection: Option<Observation>,
    pub connect_failure: Option<FailureReason>,
    pub key: PeerKey,
    /// When the stage began.
    pub start: u64,
    /// When the handshake began, while it lasts.
    pub handshake_start: Option<u64>,
    pub finished: bool,
    pub failure_recorded: bool,
}

/// An observation and the diagnostics that it is counted in.
pub type Observed = (PeerObservation, DiagnosticsModel);

impl PeerObservation {
    /// The full handshake is counted, if one lasts.
    pub open spec fn handshake_ended(
        self,
        diagnostics: DiagnosticsModel,
        result: ResultKind,
        deadline: Deadline,
        now: u64,
    ) -> Observed {
        match self.handshake_start {
            None => (self, diagnostics),
            Some(start) => (
                PeerObservation { handshake_start: None, ..self },
                diagnostics.noted(
                    Event::Handshake {
                        key: HandshakeKey {
                            source: self.key.source,
                            ipv6: self.key.ipv6,
                            result,
                            deadline,
                        },
                        millis: elapsed_millis(start, now),
                    },
                ),
            ),
        }
    }

    /// The diagnostics after the stage ended: a deadline counts as a failure unless one was counted
    /// already.
    pub open spec fn stage_failure(
        self,
        diagnostics: DiagnosticsModel,
        result: ResultKind,
    ) -> DiagnosticsModel {
        if result is Timeout && !self.failure_recorded {
            diagnostics.noted(
                Event::Failure { key: failure_key(self.key, FailureReason::Timeout) },
            )
        } else {
            diagnostics
        }
    }

    /// The stage is counted, if it has not ended.
    pub open spec fn stage_ended(
        self,
        diagnostics: DiagnosticsModel,
        result: ResultKind,
        deadline: Deadline,
        now: u64,
    ) -> Observed {
        if self.finished {
            (self, diagnostics)
        } else {
            let key = PeerKey { result, deadline, ..self.key };
            let millis = elapsed_millis(self.start, now);
            let failed = self.stage_failure(diagnostics, result);
            let connecting = self.key.stage is Connect && self.connection is Some;
            let connected = if connecting {
                failed.connect_finished(
                    self.connection->0,
                    key,
                    self.connect_failure,
                    millis,
                    now,
                )
            } else {
                failed
            };
            (
                PeerObservation {
                    key,
                    connection: if connecting {
                        None
                    } else {
                        self.connection
                    },
                    failure_recorded: self.failure_recorded || result is Timeout,
                    finished: true,
                    ..self
                },
                connected.noted(Event::Peer { key, millis }),
            )
        }
    }

    /// The exchange ended.
    pub open spec fn ended(
        self,
        diagnostics: DiagnosticsModel,
        result: ResultKind,
        deadline: Deadline,
        now: u64,
    ) -> Observed {
        if self.finished {
            (self, diagnostics)
        } else {
            let shaken = self.handshake_ended(diagnostics, result, deadline, now);
            shaken.0.stage_ended(shaken.1, result, deadline, now)
        }
    }

    /// The exchange went on to another stage.
    pub open spec fn advanced(
        self,
        diagnostics: DiagnosticsModel,
        stage: Stage,
        now: u64,
    ) -> Observed {
        if self.key.stage == stage {
            (self, diagnostics)
        } else {
            let done = self.stage_ended(diagnostics, ResultKind::Success, Deadline::Nothing, now);
            let shaken = if stage is StandardHandshake || stage is ExtensionHandshake {
                done
            } else {
                done.0.handshake_ended(done.1, ResultKind::Success, Deadline::Nothing, now)
            };
            (
                PeerObservation {
                    key: PeerKey {
                        stage,
                        result: ResultKind::Cancelled,
                        deadline: Deadline::Nothing,
                        ..self.key
                    },
                    start: now,
                    handshake_start: if stage is StandardHandshake {
                        Some(now)
                    } else {
                        shaken.0.handshake_start
                    },
                    finished: false,
                    ..shaken.0
                },
                shaken.1,
            )
        }
    }

    /// The stage failed. The reason counts once.
    pub open spec fn failed(
        self,
        diagnostics: DiagnosticsModel,
        error: PeerError,
        now: u64,
    ) -> Observed {
        if self.finished || self.failure_recorded {
            (self, diagnostics)
        } else {
            let reason = reason_of(error);
            let counted = diagnostics.noted(Event::Failure { key: failure_key(self.key, reason) });
            (
                PeerObservation {
                    failure_recorded: true,
                    connect_failure: if self.key.stage is Connect {
                        Some(reason)
                    } else {
                        self.connect_failure
                    },
                    ..self
                },
                if error is Protocol && error->detailed {
                    counted.sampled(now)
                } else {
                    counted
                },
            )
        }
    }

    /// The observation of an exchange that begins with a connection.
    pub fn new(source: Source, ipv6: bool, now: u64) -> (observation: PeerObservation)
        ensures
            observation == (PeerObservation {
                used_extension_compatibility: false,
                compatibility_downloaded: false,
                connection: None,
                connect_failure: None,
                key: PeerKey {
                    stage: Stage::Connect,
                    source,
                    ipv6,
                    result: ResultKind::Cancelled,
                    deadline: Deadline::Nothing,
                },
                start: now,
                handshake_start: None,
                finished: false,
                failure_recorded: false,
            }),
    {
        PeerObservation {
            used_extension_compatibility: false,
            compatibility_downloaded: false,
            connection: None,
            connect_failure: None,
            key: PeerKey {
                stage: Stage::Connect,
                source,
                ipv6,
                result: ResultKind::Cancelled,
                deadline: Deadline::Nothing,
            },
            start: now,
            handshake_start: None,
            finished: false,
            failure_recorded: false,
        }
    }

    /// Notes what is known of the address, before the connection begins.
    pub fn observe_connect(
        &mut self,
        diagnostics: &mut Diagnostics,
        address: Endpoint,
        attempt: Option<AttemptKind>,
        now: u64,
    )
        requires
            old(diagnostics)@.well_formed(),
            old(diagnostics)@.has_room(),
        ensures
            final(diagnostics)@ == old(diagnostics)@.expired(now),
            final(diagnostics)@.well_formed(),
            *final(self) == (PeerObservation {
                connection: Some(
                    Observation {
                        address,
                        previous: outcome_of(kept(old(diagnostics)@.endpoints, now), address),
                        attempt_kind: attempt,
                    },
                ),
                ..*old(self)
            }),
    {
        self.connection = Some(diagnostics.observe_connect(address, attempt, now));
    }

    /// Counts why the stage fails, and says whether the text on a broken frame is put out.
    pub fn failure(&mut self, diagnostics: &mut Diagnostics, error: PeerError, now: u64) -> (
    emitted: bool)
        requires
            old(diagnostics)@.well_formed(),
            old(diagnostics)@.has_room(),
        ensures
            (*final(self), final(diagnostics)@) == old(self).failed(
                old(diagnostics)@,
                error,
                now,
            ),
            final(diagnostics)@.well_formed(),
            emitted == (!old(self).finished && !old(self).failure_recorded && error is Protocol
                && error->detailed && old(diagnostics)@.window.admits(now)),
    {
        if self.finished || self.failure_recorded {
            return false;
        }
        proof {
            reveal(DiagnosticsModel::noted);
        }
        let reason = failure_reason(error);
        diagnostics.failure(self.key, reason);
        self.failure_recorded = true;
        if matches!(self.key.stage, Stage::Connect) {
            self.connect_failure = Some(reason);
        }
        match error {
            PeerError::Protocol { detailed: true, .. } => diagnostics.sample_bencode(now),
            _ => false,
        }
    }

    /// The stage of the exchange.
    pub fn stage(&self) -> (stage: Stage)
        ensures
            stage == self.key.stage,
    {
        self.key.stage
    }

    /// Goes on to another stage: the last one succeeded.
    pub fn advance(&mut self, diagnostics: &mut Diagnostics, stage: Stage, now: u64)
        requires
            old(diagnostics)@.well_formed(),
            old(diagnostics)@.has_room(),
        ensures
            (*final(self), final(diagnostics)@) == old(self).advanced(
                old(diagnostics)@,
                stage,
                now,
            ),
            final(diagnostics)@.well_formed(),
    {
        if self.key.stage == stage {
            return;
        }
        self.finish_detail(diagnostics, ResultKind::Success, Deadline::Nothing, now);
        if !matches!(stage, Stage::StandardHandshake | Stage::ExtensionHandshake) {
            self.finish_handshake(diagnostics, ResultKind::Success, Deadline::Nothing, now);
        }
        self.key.stage = stage;
        self.key.result = ResultKind::Cancelled;
        self.key.deadline = Deadline::Nothing;
        self.start = now;
        if matches!(stage, Stage::StandardHandshake) {
            self.handshake_start = Some(now);
        }
        self.finished = false;
    }

    /// Ends the exchange, once.
    pub fn finish(
        &mut self,
        diagnostics: &mut Diagnostics,
        result: ResultKind,
        deadline: Deadline,
        now: u64,
    )
        requires
            old(diagnostics)@.well_formed(),
            old(diagnostics)@.has_room(),
        ensures
            (*final(self), final(diagnostics)@) == old(self).ended(
                old(diagnostics)@,
                result,
                deadline,
                now,
            ),
            final(diagnostics)@.well_formed(),
    {
        if self.finished {
            return;
        }
        self.finish_handshake(diagnostics, result, deadline, now);
        self.finish_detail(diagnostics, result, deadline, now);
    }

    /// Counts the full handshake when it ends.
    pub fn finish_handshake(
        &mut self,
        diagnostics: &mut Diagnostics,
        result: ResultKind,
        deadline: Deadline,
        now: u64,
    )
        requires
            old(diagnostics)@.well_formed(),
            old(diagnostics)@.below(u64::MAX - 1),
        ensures
            (*final(self), final(diagnostics)@) == old(self).handshake_ended(
                old(diagnostics)@,
                result,
                deadline,
                now,
            ),
            final(diagnostics)@.well_formed(),
            final(diagnostics)@.total.volume() <= old(diagnostics)@.total.volume() + 1,
            final(diagnostics)@.interval.volume() <= old(diagnostics)@.interval.volume() + 1,
    {
        match self.handshake_start {
            None => {},
            Some(start) => {
                self.handshake_start = None;
                diagnostics.note(
                    Event::Handshake {
                        key: HandshakeKey {
                            source: self.key.source,
                            ipv6: self.key.ipv6,
                            result,
                            deadline,
                        },
                        millis: millis_between(start, now),
                    },
                );
            },
        }
    }

    /// Counts the stage when it ends.
    pub fn finish_detail(
        &mut self,
        diagnostics: &mut Diagnostics,
        result: ResultKind,
        deadline: Deadline,
        now: u64,
    )
        requires
            old(diagnostics)@.well_formed(),
            old(diagnostics)@.below(u64::MAX - CAPACITY - 4),
        ensures
            (*final(self), final(diagnostics)@) == old(self).stage_ended(
                old(diagnostics)@,
                result,
                deadline,
                now,
            ),
            final(diagnostics)@.well_formed(),
            final(diagnostics)@.total.volume() <= old(diagnostics)@.total.volume() + CAPACITY + 4,
            final(diagnostics)@.interval.volume() <= old(diagnostics)@.interval.volume()
                + CAPACITY + 4,
    {
        if self.finished {
            return;
        }
        if matches!(result, ResultKind::Timeout) && !self.failure_recorded {
            diagnostics.failure(self.key, FailureReason::Timeout);
            self.failure_recorded = true;
        }
        self.key.result = result;
        self.key.deadline = deadline;
        let millis: u64 = millis_between(self.start, now);
        if matches!(self.key.stage, Stage::Connect) {
            match self.connection {
                Some(observation) => {
                    self.connection = None;
                    diagnostics.finish_connect(
                        observation,
                        self.key,
                        self.connect_failure,
                        millis,
                        now,
                    );
                },
                None => {},
            }
        }
        diagnostics.record(self.key, millis);
        self.finished = true;
    }

    /// Ends an exchange that is given up: by a deadline of the task, or without a reason.
    pub fn abandon(&mut self, diagnostics: &mut Diagnostics, timed_out: bool, now: u64)
        requires
            old(diagnostics)@.well_formed(),
            old(diagnostics)@.has_room(),
        ensures
            (*final(self), final(diagnostics)@) == if timed_out {
                old(self).ended(old(diagnostics)@, ResultKind::Timeout, Deadline::Task, now)
            } else {
                old(self).ended(old(diagnostics)@, ResultKind::Cancelled, Deadline::Nothing, now)
            },
            final(diagnostics)@.well_formed(),
            final(self).finished,
    {
        if timed_out {
            self.finish(diagnostics, ResultKind::Timeout, Deadline::Task, now);
        } else {
            self.finish(diagnostics, ResultKind::Cancelled, Deadline::Nothing, now);
        }
    }

    /// Counts a frame whose keys are out of order.
    pub fn extension_frame(&mut self, diagnostics: &mut Diagnostics, outcome: FrameOutcome)
        requires
            old(diagnostics)@.well_formed(),
            old(diagnostics)@.has_room(),
        ensures
            *final(self) == (PeerObservation {
                used_extension_compatibility: old(self).used_extension_compatibility || outcome
                    is UnsortedCompatible,
                ..*old(self)
            }),
            final(diagnostics)@ == match outcome {
                FrameOutcome::UnsortedCompatible => old(diagnostics)@.noted(
                    Event::Frame {
                        accepted: true,
                        first: !old(self).used_extension_compatibility,
                    },
                ),
                FrameOutcome::InvalidDictionary => old(diagnostics)@.noted(
                    Event::Frame { accepted: false, first: false },
                ),
                FrameOutcome::Plain => old(diagnostics)@,
            },
            final(diagnostics)@.well_formed(),
    {
        let accepted = match outcome {
            FrameOutcome::UnsortedCompatible => true,
            FrameOutcome::InvalidDictionary => false,
            FrameOutcome::Plain => {
                return;
            },
        };
        let first = accepted && !self.used_extension_compatibility;
        if accepted {
            self.used_extension_compatibility = true;
        }
        diagnostics.note(Event::Frame { accepted, first });
    }

    /// Counts a download, once, if the session had such frames, and says whether it had.
    pub fn extension_downloaded(&mut self, diagnostics: &mut Diagnostics) -> (compatible: bool)
        requires
            old(diagnostics)@.well_formed(),
            old(diagnostics)@.has_room(),
        ensures
            compatible == old(self).used_extension_compatibility,
            *final(self) == (PeerObservation {
                compatibility_downloaded: old(self).compatibility_downloaded || old(
                    self,
                ).used_extension_compatibility,
                ..*old(self)
            }),
            final(diagnostics)@ == if old(self).used_extension_compatibility && !old(
                self,
            ).compatibility_downloaded {
                old(diagnostics)@.noted(Event::CompatibleDownload)
            } else {
                old(diagnostics)@
            },
            final(diagnostics)@.well_formed(),
    {
        if self.used_extension_compatibility && !self.compatibility_downloaded {
            self.compatibility_downloaded = true;
            diagnostics.note(Event::CompatibleDownload);
        }
        self.used_extension_compatibility
    }
}

/// The observation of one task. It counts as cancelled until a result is known.
#[derive(Clone, Copy, Debug, PartialEq, Eq, Structural)]
pub struct TaskReport {
    pub attempt: AttemptContext,
    pub attempt_result: AttemptResult,
    pub start: u64,
}

impl TaskReport {
    /// The observation of a task that begins.
    pub fn new(attempt: AttemptContext, now: u64) -> (report: TaskReport)
        ensures
            report == (TaskReport {
                attempt,
                attempt_result: AttemptResult::Cancelled,
                start: now,
            }),
    {
        TaskReport { attempt, attempt_result: AttemptResult::Cancelled, start: now }
    }

    /// Notes the result.
    pub fn finish(&mut self, attempt_result: AttemptResult)
        ensures
            *final(self) == (TaskReport { attempt_result, ..*old(self) }),
    {
        self.attempt_result = attempt_result;
    }

    /// Counts the execution when the task is over.
    pub fn close(self, diagnostics: &mut Diagnostics, now: u64)
        requires
            old(diagnostics)@.well_formed(),
            old(diagnostics)@.has_room(),
        ensures
            final(diagnostics)@ == old(diagnostics)@.noted(
                Event::Attempt {
                    key: AttemptKey {
                        context: self.attempt,
                        timing: TaskTiming::Execution,
                        result: self.attempt_result,
                    },
                    millis: elapsed_millis(self.start, now),
                },
            ),
            final(diagnostics)@.well_formed(),
    {
        let millis: u64 = millis_between(self.start, now);
        diagnostics.attempt(self.attempt, TaskTiming::Execution, self.attempt_result, millis);
    }
}

/// What has ended is not counted again.
pub proof fn lemma_ended_once(
    observation: PeerObservation,
    diagnostics: DiagnosticsModel,
    result: ResultKind,
    deadline: Deadline,
    again: ResultKind,
    later: Deadline,
    now: u64,
    then: u64,
)
    ensures
        ({
            let done = observation.ended(diagnostics, result, deadline, now);
            done.0.ended(done.1, again, later, then) == done
        }),
{
}

/// Time is counted in full milliseconds, and a time that went back as none.
pub proof fn lemma_elapsed_millis(then: u64, now: u64)
    ensures
        now < then ==> elapsed_millis(then, now) == 0,
        now >= then ==> elapsed_millis(then, now) * 1_000_000 <= now - then < (elapsed_millis(
            then,
            now,
        ) + 1) * 1_000_000,
{
}

/// A handshake that lasts is counted once, from when it began, under its source, its family, and how
/// it ended.
pub proof fn lemma_handshake_counted(
    observation: PeerObservation,
    diagnostics: DiagnosticsModel,
    result: ResultKind,
    deadline: Deadline,
    now: u64,
)
    ensures
        ({
            let (after, counted) = observation.handshake_ended(diagnostics, result, deadline, now);
            &&& after.handshake_start is None
            &&& after == (PeerObservation { handshake_start: None, ..observation })
            &&& observation.handshake_start is None ==> counted == diagnostics
            &&& observation.handshake_start matches Some(start) ==> counted == diagnostics.noted(
                Event::Handshake {
                    key: HandshakeKey {
                        source: observation.key.source,
                        ipv6: observation.key.ipv6,
                        result,
                        deadline,
                    },
                    millis: elapsed_millis(start, now),
                },
            )
        }),
{
}

/// A stage that ends is counted once, from when it began, under how it ended. A time-out is also a
/// failure, unless one was counted, and the end of a connection also counts for its address.
pub proof fn lemma_stage_counted(
    observation: PeerObservation,
    diagnostics: DiagnosticsModel,
    result: ResultKind,
    deadline: Deadline,
    now: u64,
)
    ensures
        ({
            let (after, counted) = observation.stage_ended(diagnostics, result, deadline, now);
            let key = PeerKey { result, deadline, ..observation.key };
            let millis = elapsed_millis(observation.start, now);
            let connecting = observation.key.stage is Connect && observation.connection is Some;
            let failed = if result is Timeout && !observation.failure_recorded {
                diagnostics.noted(
                    Event::Failure {
                        key: FailureKey {
                            stage: observation.key.stage,
                            source: observation.key.source,
                            ipv6: observation.key.ipv6,
                            reason: FailureReason::Timeout,
                        },
                    },
                )
            } else {
                diagnostics
            };
            &&& observation.finished ==> after == observation && counted == diagnostics
            &&& !observation.finished ==> {
                &&& after.finished
                &&& after.key == key
                &&& after.start == observation.start
                &&& after.handshake_start == observation.handshake_start
                &&& after.connect_failure == observation.connect_failure
                &&& after.failure_recorded <==> observation.failure_recorded || result is Timeout
                &&& connecting ==> after.connection is None
                &&& !connecting ==> after.connection == observation.connection
                &&& !connecting ==> counted == failed.noted(Event::Peer { key, millis })
                &&& connecting ==> counted == failed.connect_finished(
                    observation.connection->0,
                    key,
                    observation.connect_failure,
                    millis,
                    now,
                ).noted(Event::Peer { key, millis })
            }
        }),
{
}

/// An exchange that ends is counted once: its handshake first, if one lasts, and then its stage.
pub proof fn lemma_exchange_counted(
    observation: PeerObservation,
    diagnostics: DiagnosticsModel,
    result: ResultKind,
    deadline: Deadline,
    now: u64,
)
    ensures
        observation.finished ==> observation.ended(diagnostics, result, deadline, now) == (
            observation,
            diagnostics,
        ),
        !observation.finished ==> ({
            let (shaken, counted) = observation.handshake_ended(diagnostics, result, deadline, now);
            observation.ended(diagnostics, result, deadline, now) == shaken.stage_ended(
                counted,
                result,
                deadline,
                now,
            )
        }),
{
}

/// Where an exchange goes on to another stage, the stage before has succeeded, and so has the
/// handshake unless its second half follows. The new stage begins now, and the handshake with its
/// first half.
pub proof fn lemma_next_stage(
    observation: PeerObservation,
    diagnostics: DiagnosticsModel,
    stage: Stage,
    now: u64,
)
    ensures
        ({
            let (after, counted) = observation.advanced(diagnostics, stage, now);
            let (done, so_far) = observation.stage_ended(
                diagnostics,
                ResultKind::Success,
                Deadline::Nothing,
                now,
            );
            &&& stage == observation.key.stage ==> after == observation && counted == diagnostics
            &&& stage != observation.key.stage ==> {
                &&& after.key == (PeerKey {
                    stage,
                    source: observation.key.source,
                    ipv6: observation.key.ipv6,
                    result: ResultKind::Cancelled,
                    deadline: Deadline::Nothing,
                })
                &&& after.start == now
                &&& !after.finished
                &&& after.failure_recorded == done.failure_recorded
                &&& after.connection == done.connection
                &&& stage is StandardHandshake ==> after.handshake_start == Some(now) && counted
                    == so_far
                &&& stage is ExtensionHandshake ==> after.handshake_start == done.handshake_start
                    && counted == so_far
                &&& stage is Connect || stage is Transfer ==> after.handshake_start is None
                    && counted == done.handshake_ended(
                    so_far,
                    ResultKind::Success,
                    Deadline::Nothing,
                    now,
                ).1
            }
        }),
{
}

/// A failure is counted once in an exchange, under its reason. It is remembered for the connection
/// where that has failed, and a broken frame that can be shown is sampled.
pub proof fn lemma_failure_counted(
    observation: PeerObservation,
    diagnostics: DiagnosticsModel,
    error: PeerError,
    now: u64,
)
    ensures
        ({
            let (after, counted) = observation.failed(diagnostics, error, now);
            let failure = diagnostics.noted(
                Event::Failure {
                    key: FailureKey {
                        stage: observation.key.stage,
                        source: observation.key.source,
                        ipv6: observation.key.ipv6,
                        reason: reason_of(error),
                    },
                },
            );
            &&& observation.finished || observation.failure_recorded ==> after == observation
                && counted == diagnostics
            &&& !observation.finished && !observation.failure_recorded ==> {
                &&& after == (PeerObservation {
                    failure_recorded: true,
                    connect_failure: after.connect_failure,
                    ..observation
                })
                &&& observation.key.stage is Connect ==> after.connect_failure == Some(
                    reason_of(error),
                )
                &&& !(observation.key.stage is Connect) ==> after.connect_failure
                    == observation.connect_failure
                &&& (error matches PeerError::Protocol { detailed, .. } && detailed) ==> counted
                    == failure.sampled(now)
                &&& !(error matches PeerError::Protocol { detailed, .. } && detailed) ==> counted
                    == failure
            }
        }),
{
}

} // verus!
