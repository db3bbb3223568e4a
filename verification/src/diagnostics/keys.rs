//! The dimensions of the diagnostics, and the order of their combinations.

use crate::failure::AttemptFailure;
use crate::jobs::claim::Job;
use crate::jobs::model::{AttemptKind, ClaimClass};
use crate::selector::Source;
use vstd::prelude::*;

verus! {

/// A combination of dimensions with a place in the order of all of them.
pub trait Keyed: Copy {
    /// The place in the order.
    spec fn rank(self) -> int;

    /// The place in the order.
    fn code(self) -> (code: u64)
        ensures
            code == self.rank(),
    ;

    /// Different combinations have different places.
    proof fn lemma_rank(a: Self, b: Self)
        ensures
            a.rank() == b.rank() ==> a == b,
    ;
}

/// What of a job is timed.
#[derive(Clone, Copy, Debug, PartialEq, Eq, Structural, PartialOrd, Ord)]
pub enum TaskTiming {
    DueWait,
    DiscoveryAge,
    Execution,
}

/// How an attempt went as a whole. The failure is the last one of the attempt.
#[derive(Clone, Copy, Debug, PartialEq, Eq, Structural, PartialOrd, Ord)]
pub enum AttemptResult {
    Observed,
    Downloaded,
    RemoteFailure(AttemptFailure),
    LocalDeferral,
    ControlFailure,
    Cancelled,
}

impl AttemptResult {
    /// The label of a result.
    pub open spec fn text(self) -> Seq<char> {
        match self {
            AttemptResult::Observed => "Observed"@,
            AttemptResult::Downloaded => "Downloaded"@,
            AttemptResult::RemoteFailure(_) => "RemoteFailure"@,
            AttemptResult::LocalDeferral => "LocalDeferral"@,
            AttemptResult::ControlFailure => "ControlFailure"@,
            AttemptResult::Cancelled => "Cancelled"@,
        }
    }

    /// The label of the result.
    pub fn label(self) -> (label: &'static str)
        ensures
            label@ == self.text(),
    {
        match self {
            AttemptResult::Observed => "Observed",
            AttemptResult::Downloaded => "Downloaded",
            AttemptResult::RemoteFailure(_) => "RemoteFailure",
            AttemptResult::LocalDeferral => "LocalDeferral",
            AttemptResult::ControlFailure => "ControlFailure",
            AttemptResult::Cancelled => "Cancelled",
        }
    }

    /// The category of a failure.
    pub fn reason(self) -> (reason: Option<&'static str>)
        ensures
            match self {
                AttemptResult::RemoteFailure(failure) => reason is Some && reason->0@
                    == failure.text(),
                _ => reason is None,
            },
    {
        match self {
            AttemptResult::RemoteFailure(failure) => Some(failure.label()),
            _ => None,
        }
    }
}

/// What is known of an attempt when its job is claimed.
#[derive(Clone, Copy, Debug, PartialEq, Eq, Structural, PartialOrd, Ord)]
pub struct AttemptContext {
    pub kind: AttemptKind,
    pub class: ClaimClass,
    pub failed_attempts_before: u32,
    pub had_valid_hint: bool,
}

/// The history of an attempt, without its class and its addresses.
#[derive(Clone, Copy, Debug, PartialEq, Eq, Structural, PartialOrd, Ord)]
pub struct AttemptHistory {
    pub kind: AttemptKind,
    pub failed_attempts_before: u32,
}

impl AttemptContext {
    /// The history of an attempt.
    pub open spec fn past(self) -> AttemptHistory {
        AttemptHistory {
            kind: self.kind,
            failed_attempts_before: self.failed_attempts_before,
        }
    }

    /// What is known of the attempt of a claimed job.
    pub fn from_job(job: &Job) -> (context: AttemptContext)
        ensures
            context.kind is First == (job.generation == 1),
            context.class == job.class,
            context.failed_attempts_before == job.failed_attempts_before,
            context.had_valid_hint == job.had_valid_hint,
    {
        AttemptContext {
            kind: job.attempt_kind(),
            class: job.class,
            failed_attempts_before: job.failed_attempts_before,
            had_valid_hint: job.had_valid_hint,
        }
    }

    /// The history of the attempt.
    pub fn history(self) -> (history: AttemptHistory)
        ensures
            history == self.past(),
    {
        AttemptHistory {
            kind: self.kind,
            failed_attempts_before: self.failed_attempts_before,
        }
    }
}

/// The stages of an exchange with a peer.
#[derive(Clone, Copy, Debug, PartialEq, Eq, Structural, PartialOrd, Ord)]
pub enum Stage {
    Connect,
    StandardHandshake,
    ExtensionHandshake,
    Transfer,
}

/// The deadline that ended an exchange.
#[derive(Clone, Copy, Debug, PartialEq, Eq, Structural, PartialOrd, Ord)]
pub enum Deadline {
    Nothing,
    Stage,
    Peer,
    Task,
}

/// How a stage ended.
#[derive(Clone, Copy, Debug, PartialEq, Eq, Structural, PartialOrd, Ord)]
pub enum ResultKind {
    Success,
    Timeout,
    Eof,
    Reset,
    Io,
    Unsupported,
    Protocol,
    HashMismatch,
    Limit,
    Rejected,
    Cancelled,
}

/// Why a stage failed. What the wire and the limits tell apart is kept as a number.
#[derive(Clone, Copy, Debug, PartialEq, Eq, Structural, PartialOrd, Ord)]
pub enum FailureReason {
    Protocol(u16),
    Resource(u16),
    ConnectionRefused,
    NetworkUnreachable,
    HostUnreachable,
    PermissionDenied,
    OtherIo,
    Eof,
    Reset,
    Timeout,
    Unsupported,
    Rejected,
    HashMismatch,
}

/// The kinds of an input or output error that are told apart.
#[derive(Clone, Copy, Debug, PartialEq, Eq, Structural)]
pub enum IoKind {
    ConnectionRefused,
    NetworkUnreachable,
    HostUnreachable,
    PermissionDenied,
    UnexpectedEof,
    ConnectionReset,
    ConnectionAborted,
    BrokenPipe,
    TimedOut,
    Other,
}

/// Why an exchange with a peer failed.
#[derive(Clone, Copy, Debug, PartialEq, Eq, Structural)]
pub enum PeerError {
    Io(IoKind),
    Timeout(Deadline),
    Disconnected,
    /// The peer broke the protocol; there may be a text that says how.
    Protocol { kind: u16, detailed: bool },
    Unsupported,
    Limit(u16),
    Rejected,
    HashMismatch,
    HandshakeHashMismatch,
}

/// The reason behind an error. Messages are never read for it.
pub open spec fn reason_of(error: PeerError) -> FailureReason {
    match error {
        PeerError::Protocol { kind, .. } => FailureReason::Protocol(kind),
        PeerError::Limit(kind) => FailureReason::Resource(kind),
        PeerError::Io(IoKind::ConnectionRefused) => FailureReason::ConnectionRefused,
        PeerError::Io(IoKind::NetworkUnreachable) => FailureReason::NetworkUnreachable,
        PeerError::Io(IoKind::HostUnreachable) => FailureReason::HostUnreachable,
        PeerError::Io(IoKind::PermissionDenied) => FailureReason::PermissionDenied,
        PeerError::Io(IoKind::UnexpectedEof) => FailureReason::Eof,
        PeerError::Io(IoKind::ConnectionReset) => FailureReason::Reset,
        PeerError::Io(IoKind::ConnectionAborted) => FailureReason::Reset,
        PeerError::Io(IoKind::BrokenPipe) => FailureReason::Reset,
        PeerError::Io(IoKind::TimedOut) => FailureReason::Timeout,
        PeerError::Io(IoKind::Other) => FailureReason::OtherIo,
        PeerError::Disconnected => FailureReason::Eof,
        PeerError::Timeout(_) => FailureReason::Timeout,
        PeerError::Unsupported => FailureReason::Unsupported,
        PeerError::Rejected => FailureReason::Rejected,
        PeerError::HashMismatch => FailureReason::HashMismatch,
        PeerError::HandshakeHashMismatch => FailureReason::HashMismatch,
    }
}

/// The reason behind an error.
pub fn failure_reason(error: PeerError) -> (reason: FailureReason)
    ensures
        reason == reason_of(error),
{
    match error {
        PeerError::Protocol { kind, .. } => FailureReason::Protocol(kind),
        PeerError::Limit(kind) => FailureReason::Resource(kind),
        PeerError::Io(kind) => match kind {
            IoKind::ConnectionRefused => FailureReason::ConnectionRefused,
            IoKind::NetworkUnreachable => FailureReason::NetworkUnreachable,
            IoKind::HostUnreachable => FailureReason::HostUnreachable,
            IoKind::PermissionDenied => FailureReason::PermissionDenied,
            IoKind::UnexpectedEof => FailureReason::Eof,
            IoKind::ConnectionReset | IoKind::ConnectionAborted | IoKind::BrokenPipe => {
                FailureReason::Reset
            },
            IoKind::TimedOut => FailureReason::Timeout,
            IoKind::Other => FailureReason::OtherIo,
        },
        PeerError::Disconnected => FailureReason::Eof,
        PeerError::Timeout(_) => FailureReason::Timeout,
        PeerError::Unsupported => FailureReason::Unsupported,
        PeerError::Rejected => FailureReason::Rejected,
        PeerError::HashMismatch | PeerError::HandshakeHashMismatch => FailureReason::HashMismatch,
    }
}

/// How a stage ended that ended in an error.
pub open spec fn kind_of_error(error: PeerError) -> ResultKind {
    match error {
        PeerError::Io(IoKind::UnexpectedEof) => ResultKind::Eof,
        PeerError::Io(IoKind::ConnectionReset) => ResultKind::Reset,
        PeerError::Io(IoKind::ConnectionAborted) => ResultKind::Reset,
        PeerError::Io(IoKind::BrokenPipe) => ResultKind::Reset,
        PeerError::Io(_) => ResultKind::Io,
        PeerError::Timeout(_) => ResultKind::Timeout,
        PeerError::Disconnected => ResultKind::Eof,
        PeerError::Protocol { .. } => ResultKind::Protocol,
        PeerError::Unsupported => ResultKind::Unsupported,
        PeerError::Limit(_) => ResultKind::Limit,
        PeerError::Rejected => ResultKind::Rejected,
        PeerError::HashMismatch => ResultKind::HashMismatch,
        PeerError::HandshakeHashMismatch => ResultKind::HashMismatch,
    }
}

/// How a stage ended that ended in an error.
pub fn error_kind(error: PeerError) -> (kind: ResultKind)
    ensures
        kind == kind_of_error(error),
{
    match error {
        PeerError::Io(kind) => match kind {
            IoKind::UnexpectedEof => ResultKind::Eof,
            IoKind::ConnectionReset | IoKind::ConnectionAborted | IoKind::BrokenPipe => {
                ResultKind::Reset
            },
            _ => ResultKind::Io,
        },
        PeerError::Timeout(_) => ResultKind::Timeout,
        PeerError::Disconnected => ResultKind::Eof,
        PeerError::Protocol { .. } => ResultKind::Protocol,
        PeerError::Unsupported => ResultKind::Unsupported,
        PeerError::Limit(_) => ResultKind::Limit,
        PeerError::Rejected => ResultKind::Rejected,
        PeerError::HashMismatch | PeerError::HandshakeHashMismatch => ResultKind::HashMismatch,
    }
}

/// What the last connection to an address came to.
#[derive(Clone, Copy, Debug, PartialEq, Eq, Structural, PartialOrd, Ord)]
pub enum PreviousConnect {
    NoHistory,
    Success,
    Timeout,
    ConnectionRefused,
    Unreachable,
    OtherIo,
}

/// The place of a yes or no.
pub open spec fn bit(flag: bool) -> int {
    if flag {
        1
    } else {
        0
    }
}

/// The place of a kind.
pub open spec fn kind_rank(kind: AttemptKind) -> int {
    match kind {
        AttemptKind::First => 0,
        AttemptKind::Repeat => 1,
    }
}

/// The place of a timing.
pub open spec fn timing_rank(timing: TaskTiming) -> int {
    match timing {
        TaskTiming::DueWait => 0,
        TaskTiming::DiscoveryAge => 1,
        TaskTiming::Execution => 2,
    }
}

/// The place of a category.
pub open spec fn failure_rank(failure: AttemptFailure) -> int {
    match failure {
        AttemptFailure::NoPeers => 0,
        AttemptFailure::PeerIo => 1,
        AttemptFailure::PeerTimeout => 2,
        AttemptFailure::Protocol => 3,
        AttemptFailure::HashMismatch => 4,
        AttemptFailure::Unsupported => 5,
        AttemptFailure::ReceiveLimit => 6,
        AttemptFailure::Rejected => 7,
        AttemptFailure::MetadataUnavailable => 8,
        AttemptFailure::TaskTimeout => 9,
        AttemptFailure::Other => 10,
    }
}

/// The place of a result.
pub open spec fn result_rank(result: AttemptResult) -> int {
    match result {
        AttemptResult::Observed => 0,
        AttemptResult::Downloaded => 1,
        AttemptResult::RemoteFailure(failure) => 2 + failure_rank(failure),
        AttemptResult::LocalDeferral => 13,
        AttemptResult::ControlFailure => 14,
        AttemptResult::Cancelled => 15,
    }
}

fn bit_code(flag: bool) -> (code: u64)
    ensures
        code == bit(flag),
{
    if flag {
        1
    } else {
        0
    }
}

fn kind_code(kind: AttemptKind) -> (code: u64)
    ensures
        code == kind_rank(kind),
{
    match kind {
        AttemptKind::First => 0,
        AttemptKind::Repeat => 1,
    }
}

fn class_code(class: ClaimClass) -> (code: u64)
    ensures
        code == class.code(),
{
    match class {
        ClaimClass::Hint => 0,
        ClaimClass::Recent => 1,
        ClaimClass::Retry => 2,
        ClaimClass::History => 3,
    }
}

fn timing_code(timing: TaskTiming) -> (code: u64)
    ensures
        code == timing_rank(timing),
{
    match timing {
        TaskTiming::DueWait => 0,
        TaskTiming::DiscoveryAge => 1,
        TaskTiming::Execution => 2,
    }
}

fn failure_code(failure: AttemptFailure) -> (code: u64)
    ensures
        code == failure_rank(failure),
{
    match failure {
        AttemptFailure::NoPeers => 0,
        AttemptFailure::PeerIo => 1,
        AttemptFailure::PeerTimeout => 2,
        AttemptFailure::Protocol => 3,
        AttemptFailure::HashMismatch => 4,
        AttemptFailure::Unsupported => 5,
        AttemptFailure::ReceiveLimit => 6,
        AttemptFailure::Rejected => 7,
        AttemptFailure::MetadataUnavailable => 8,
        AttemptFailure::TaskTimeout => 9,
        AttemptFailure::Other => 10,
    }
}

fn result_code(result: AttemptResult) -> (code: u64)
    ensures
        code == result_rank(result),
{
    match result {
        AttemptResult::Observed => 0,
        AttemptResult::Downloaded => 1,
        AttemptResult::RemoteFailure(failure) => 2 + failure_code(failure),
        AttemptResult::LocalDeferral => 13,
        AttemptResult::ControlFailure => 14,
        AttemptResult::Cancelled => 15,
    }
}

impl Keyed for AttemptContext {
    open spec fn rank(self) -> int {
        ((kind_rank(self.kind) * 4 + self.class.code()) * 0x1_0000_0000
            + self.failed_attempts_before) * 2 + bit(self.had_valid_hint)
    }

    fn code(self) -> (code: u64) {
        ((kind_code(self.kind) * 4 + class_code(self.class)) * 0x1_0000_0000
            + self.failed_attempts_before as u64) * 2 + bit_code(self.had_valid_hint)
    }

    proof fn lemma_rank(a: Self, b: Self) {
    }
}

impl Keyed for AttemptHistory {
    open spec fn rank(self) -> int {
        kind_rank(self.kind) * 0x1_0000_0000 + self.failed_attempts_before
    }

    fn code(self) -> (code: u64) {
        kind_code(self.kind) * 0x1_0000_0000 + self.failed_attempts_before as u64
    }

    proof fn lemma_rank(a: Self, b: Self) {
    }
}

/// An attempt with all that is known of it, what is timed and how it went.
#[derive(Clone, Copy, Debug, PartialEq, Eq, Structural)]
pub struct AttemptKey {
    pub context: AttemptContext,
    pub timing: TaskTiming,
    pub result: AttemptResult,
}

impl Keyed for AttemptKey {
    open spec fn rank(self) -> int {
        (self.context.rank() * 3 + timing_rank(self.timing)) * 16 + result_rank(self.result)
    }

    fn code(self) -> (code: u64) {
        (self.context.code() * 3 + timing_code(self.timing)) * 16 + result_code(self.result)
    }

    proof fn lemma_rank(a: Self, b: Self) {
        AttemptContext::lemma_rank(a.context, b.context);
    }
}

/// An attempt by its history, what is timed and how it went.
#[derive(Clone, Copy, Debug, PartialEq, Eq, Structural)]
pub struct HistoryKey {
    pub history: AttemptHistory,
    pub timing: TaskTiming,
    pub result: AttemptResult,
}

impl Keyed for HistoryKey {
    open spec fn rank(self) -> int {
        (self.history.rank() * 3 + timing_rank(self.timing)) * 16 + result_rank(self.result)
    }

    fn code(self) -> (code: u64) {
        (self.history.code() * 3 + timing_code(self.timing)) * 16 + result_code(self.result)
    }

    proof fn lemma_rank(a: Self, b: Self) {
        AttemptHistory::lemma_rank(a.history, b.history);
    }
}

/// An attempt by its history and its class, what is timed and how it went.
#[derive(Clone, Copy, Debug, PartialEq, Eq, Structural)]
pub struct ClassKey {
    pub history: AttemptHistory,
    pub class: ClaimClass,
    pub timing: TaskTiming,
    pub result: AttemptResult,
}

impl Keyed for ClassKey {
    open spec fn rank(self) -> int {
        ((self.history.rank() * 4 + self.class.code()) * 3 + timing_rank(self.timing)) * 16
            + result_rank(self.result)
    }

    fn code(self) -> (code: u64) {
        ((self.history.code() * 4 + class_code(self.class)) * 3 + timing_code(self.timing)) * 16
            + result_code(self.result)
    }

    proof fn lemma_rank(a: Self, b: Self) {
        AttemptHistory::lemma_rank(a.history, b.history);
    }
}

/// A committed attempt by its history and its class.
#[derive(Clone, Copy, Debug, PartialEq, Eq, Structural)]
pub struct CommitKey {
    pub history: AttemptHistory,
    pub class: ClaimClass,
}

impl Keyed for CommitKey {
    open spec fn rank(self) -> int {
        self.history.rank() * 4 + self.class.code()
    }

    fn code(self) -> (code: u64) {
        self.history.code() * 4 + class_code(self.class)
    }

    proof fn lemma_rank(a: Self, b: Self) {
        AttemptHistory::lemma_rank(a.history, b.history);
    }
}

/// The kind of an attempt, and whether there was a valid address for it.
#[derive(Clone, Copy, Debug, PartialEq, Eq, Structural)]
pub struct HintKey {
    pub kind: AttemptKind,
    pub had_valid_hint: bool,
}

impl Keyed for HintKey {
    open spec fn rank(self) -> int {
        kind_rank(self.kind) * 2 + bit(self.had_valid_hint)
    }

    fn code(self) -> (code: u64) {
        kind_code(self.kind) * 2 + bit_code(self.had_valid_hint)
    }

    proof fn lemma_rank(a: Self, b: Self) {
    }
}

/// The place of a source.
pub open spec fn source_rank(source: Source) -> int {
    match source {
        Source::Announce => 0,
        Source::Dht => 1,
    }
}

/// The place of a stage.
pub open spec fn stage_rank(stage: Stage) -> int {
    match stage {
        Stage::Connect => 0,
        Stage::StandardHandshake => 1,
        Stage::ExtensionHandshake => 2,
        Stage::Transfer => 3,
    }
}

/// The place of a deadline.
pub open spec fn deadline_rank(deadline: Deadline) -> int {
    match deadline {
        Deadline::Nothing => 0,
        Deadline::Stage => 1,
        Deadline::Peer => 2,
        Deadline::Task => 3,
    }
}

/// The place of an ending.
pub open spec fn ending_rank(result: ResultKind) -> int {
    match result {
        ResultKind::Success => 0,
        ResultKind::Timeout => 1,
        ResultKind::Eof => 2,
        ResultKind::Reset => 3,
        ResultKind::Io => 4,
        ResultKind::Unsupported => 5,
        ResultKind::Protocol => 6,
        ResultKind::HashMismatch => 7,
        ResultKind::Limit => 8,
        ResultKind::Rejected => 9,
        ResultKind::Cancelled => 10,
    }
}

/// The place of a reason.
pub open spec fn reason_rank(reason: FailureReason) -> int {
    match reason {
        FailureReason::Protocol(kind) => kind as int,
        FailureReason::Resource(kind) => 0x1_0000 + kind,
        FailureReason::ConnectionRefused => 0x2_0000,
        FailureReason::NetworkUnreachable => 0x2_0001,
        FailureReason::HostUnreachable => 0x2_0002,
        FailureReason::PermissionDenied => 0x2_0003,
        FailureReason::OtherIo => 0x2_0004,
        FailureReason::Eof => 0x2_0005,
        FailureReason::Reset => 0x2_0006,
        FailureReason::Timeout => 0x2_0007,
        FailureReason::Unsupported => 0x2_0008,
        FailureReason::Rejected => 0x2_0009,
        FailureReason::HashMismatch => 0x2_000a,
    }
}

/// The place of what a connection came to before.
pub open spec fn previous_rank(previous: PreviousConnect) -> int {
    match previous {
        PreviousConnect::NoHistory => 0,
        PreviousConnect::Success => 1,
        PreviousConnect::Timeout => 2,
        PreviousConnect::ConnectionRefused => 3,
        PreviousConnect::Unreachable => 4,
        PreviousConnect::OtherIo => 5,
    }
}

fn source_code(source: Source) -> (code: u64)
    ensures
        code == source_rank(source),
{
    match source {
        Source::Announce => 0,
        Source::Dht => 1,
    }
}

fn stage_code(stage: Stage) -> (code: u64)
    ensures
        code == stage_rank(stage),
{
    match stage {
        Stage::Connect => 0,
        Stage::StandardHandshake => 1,
        Stage::ExtensionHandshake => 2,
        Stage::Transfer => 3,
    }
}

fn deadline_code(deadline: Deadline) -> (code: u64)
    ensures
        code == deadline_rank(deadline),
{
    match deadline {
        Deadline::Nothing => 0,
        Deadline::Stage => 1,
        Deadline::Peer => 2,
        Deadline::Task => 3,
    }
}

fn ending_code(result: ResultKind) -> (code: u64)
    ensures
        code == ending_rank(result),
{
    match result {
        ResultKind::Success => 0,
        ResultKind::Timeout => 1,
        ResultKind::Eof => 2,
        ResultKind::Reset => 3,
        ResultKind::Io => 4,
        ResultKind::Unsupported => 5,
        ResultKind::Protocol => 6,
        ResultKind::HashMismatch => 7,
        ResultKind::Limit => 8,
        ResultKind::Rejected => 9,
        ResultKind::Cancelled => 10,
    }
}

fn reason_code(reason: FailureReason) -> (code: u64)
    ensures
        code == reason_rank(reason),
{
    match reason {
        FailureReason::Protocol(kind) => kind as u64,
        FailureReason::Resource(kind) => 0x1_0000 + kind as u64,
        FailureReason::ConnectionRefused => 0x2_0000,
        FailureReason::NetworkUnreachable => 0x2_0001,
        FailureReason::HostUnreachable => 0x2_0002,
        FailureReason::PermissionDenied => 0x2_0003,
        FailureReason::OtherIo => 0x2_0004,
        FailureReason::Eof => 0x2_0005,
        FailureReason::Reset => 0x2_0006,
        FailureReason::Timeout => 0x2_0007,
        FailureReason::Unsupported => 0x2_0008,
        FailureReason::Rejected => 0x2_0009,
        FailureReason::HashMismatch => 0x2_000a,
    }
}

fn previous_code(previous: PreviousConnect) -> (code: u64)
    ensures
        code == previous_rank(previous),
{
    match previous {
        PreviousConnect::NoHistory => 0,
        PreviousConnect::Success => 1,
        PreviousConnect::Timeout => 2,
        PreviousConnect::ConnectionRefused => 3,
        PreviousConnect::Unreachable => 4,
        PreviousConnect::OtherIo => 5,
    }
}

/// A stage of an exchange and how it ended.
#[derive(Clone, Copy, Debug, PartialEq, Eq, Structural)]
pub struct PeerKey {
    pub stage: Stage,
    pub source: Source,
    pub ipv6: bool,
    pub result: ResultKind,
    pub deadline: Deadline,
}

impl Keyed for PeerKey {
    open spec fn rank(self) -> int {
        (((stage_rank(self.stage) * 2 + source_rank(self.source)) * 2 + bit(self.ipv6)) * 11
            + ending_rank(self.result)) * 4 + deadline_rank(self.deadline)
    }

    fn code(self) -> (code: u64) {
        (((stage_code(self.stage) * 2 + source_code(self.source)) * 2 + bit_code(self.ipv6)) * 11
            + ending_code(self.result)) * 4 + deadline_code(self.deadline)
    }

    proof fn lemma_rank(a: Self, b: Self) {
    }
}

/// A full handshake and how it ended.
#[derive(Clone, Copy, Debug, PartialEq, Eq, Structural)]
pub struct HandshakeKey {
    pub source: Source,
    pub ipv6: bool,
    pub result: ResultKind,
    pub deadline: Deadline,
}

impl Keyed for HandshakeKey {
    open spec fn rank(self) -> int {
        ((source_rank(self.source) * 2 + bit(self.ipv6)) * 11 + ending_rank(self.result)) * 4
            + deadline_rank(self.deadline)
    }

    fn code(self) -> (code: u64) {
        ((source_code(self.source) * 2 + bit_code(self.ipv6)) * 11 + ending_code(self.result)) * 4
            + deadline_code(self.deadline)
    }

    proof fn lemma_rank(a: Self, b: Self) {
    }
}

/// A failed stage and the reason.
#[derive(Clone, Copy, Debug, PartialEq, Eq, Structural)]
pub struct FailureKey {
    pub stage: Stage,
    pub source: Source,
    pub ipv6: bool,
    pub reason: FailureReason,
}

impl Keyed for FailureKey {
    open spec fn rank(self) -> int {
        ((stage_rank(self.stage) * 2 + source_rank(self.source)) * 2 + bit(self.ipv6)) * 0x4_0000
            + reason_rank(self.reason)
    }

    fn code(self) -> (code: u64) {
        ((stage_code(self.stage) * 2 + source_code(self.source)) * 2 + bit_code(self.ipv6))
            * 0x4_0000 + reason_code(self.reason)
    }

    proof fn lemma_rank(a: Self, b: Self) {
    }
}

/// A connection: what came before, and how it ended.
#[derive(Clone, Copy, Debug, PartialEq, Eq, Structural)]
pub struct ConnectionKey {
    pub attempt_kind: Option<AttemptKind>,
    pub source: Source,
    pub ipv6: bool,
    pub previous: PreviousConnect,
    pub result: ResultKind,
    pub reason: Option<FailureReason>,
    pub deadline: Deadline,
}

/// The place of a kind that may be missing.
pub open spec fn some_kind_rank(kind: Option<AttemptKind>) -> int {
    match kind {
        None => 0,
        Some(kind) => 1 + kind_rank(kind),
    }
}

/// The place of a reason that may be missing.
pub open spec fn some_reason_rank(reason: Option<FailureReason>) -> int {
    match reason {
        None => 0,
        Some(reason) => 1 + reason_rank(reason),
    }
}

fn some_kind_code(kind: Option<AttemptKind>) -> (code: u64)
    ensures
        code == some_kind_rank(kind),
{
    match kind {
        None => 0,
        Some(kind) => 1 + kind_code(kind),
    }
}

fn some_reason_code(reason: Option<FailureReason>) -> (code: u64)
    ensures
        code == some_reason_rank(reason),
{
    match reason {
        None => 0,
        Some(reason) => 1 + reason_code(reason),
    }
}

/// A number and a digit below its base are told by their sum.
proof fn lemma_digit(a: int, low_a: int, b: int, low_b: int, base: int)
    requires
        0 <= low_a < base,
        0 <= low_b < base,
        a * base + low_a == b * base + low_b,
    ensures
        a == b,
        low_a == low_b,
{
    assert(a == b) by (nonlinear_arith)
        requires
            0 <= low_a < base,
            0 <= low_b < base,
            a * base + low_a == b * base + low_b,
    ;
}

/// The leading parts of the place of a connection.
spec fn connection_digits(key: ConnectionKey) -> (int, int, int, int, int, int) {
    let kind = some_kind_rank(key.attempt_kind);
    let source = kind * 2 + source_rank(key.source);
    let family = source * 2 + bit(key.ipv6);
    let previous = family * 6 + previous_rank(key.previous);
    let result = previous * 11 + ending_rank(key.result);
    let reason = result * 0x4_0000 + some_reason_rank(key.reason);
    (kind, source, family, previous, result, reason)
}

/// Dimensions with equal places are equal.
proof fn lemma_connection_parts(a: ConnectionKey, b: ConnectionKey)
    requires
        some_kind_rank(a.attempt_kind) == some_kind_rank(b.attempt_kind),
        source_rank(a.source) == source_rank(b.source),
        bit(a.ipv6) == bit(b.ipv6),
        previous_rank(a.previous) == previous_rank(b.previous),
        ending_rank(a.result) == ending_rank(b.result),
        some_reason_rank(a.reason) == some_reason_rank(b.reason),
        deadline_rank(a.deadline) == deadline_rank(b.deadline),
    ensures
        a == b,
{
    assert(a.attempt_kind == b.attempt_kind);
    assert(a.source == b.source);
    assert(a.previous == b.previous);
    assert(a.result == b.result);
    assert(a.reason == b.reason);
    assert(a.deadline == b.deadline);
}

impl Keyed for ConnectionKey {
    open spec fn rank(self) -> int {
        (((((some_kind_rank(self.attempt_kind) * 2 + source_rank(self.source)) * 2 + bit(self.ipv6))
            * 6 + previous_rank(self.previous)) * 11 + ending_rank(self.result)) * 0x4_0000
            + some_reason_rank(self.reason)) * 4 + deadline_rank(self.deadline)
    }

    fn code(self) -> (code: u64) {
        (((((some_kind_code(self.attempt_kind) * 2 + source_code(self.source)) * 2 + bit_code(
            self.ipv6,
        )) * 6 + previous_code(self.previous)) * 11 + ending_code(self.result)) * 0x4_0000
            + some_reason_code(self.reason)) * 4 + deadline_code(self.deadline)
    }

    proof fn lemma_rank(a: Self, b: Self) {
        let x = connection_digits(a);
        let y = connection_digits(b);
        if a.rank() == b.rank() {
            lemma_digit(x.5, deadline_rank(a.deadline), y.5, deadline_rank(b.deadline), 4);
            lemma_digit(
                x.4,
                some_reason_rank(a.reason),
                y.4,
                some_reason_rank(b.reason),
                0x4_0000,
            );
            lemma_digit(x.3, ending_rank(a.result), y.3, ending_rank(b.result), 11);
            lemma_digit(x.2, previous_rank(a.previous), y.2, previous_rank(b.previous), 6);
            lemma_digit(x.1, bit(a.ipv6), y.1, bit(b.ipv6), 2);
            lemma_digit(x.0, source_rank(a.source), y.0, source_rank(b.source), 2);
            lemma_connection_parts(a, b);
        }
    }
}

} // verus!
