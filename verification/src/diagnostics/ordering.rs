//! The order of the combinations of dimensions: field by field, each in the order of its values.

use crate::diagnostics::keys::{
    bit, deadline_rank, ending_rank, failure_rank, kind_of_error, kind_rank, previous_rank,
    reason_of, reason_rank, result_rank, some_kind_rank, some_reason_rank, source_rank, stage_rank,
    timing_rank, AttemptContext, AttemptHistory, AttemptKey, AttemptResult, ClassKey, CommitKey,
    ConnectionKey, Deadline, FailureKey, FailureReason, HandshakeKey, HintKey, HistoryKey, IoKind,
    Keyed, PeerError, PeerKey, PreviousConnect, ResultKind, Stage, TaskTiming,
};
use crate::failure::AttemptFailure;
use crate::jobs::model::AttemptKind;
use crate::selector::Source;
use vstd::prelude::*;

verus! {

/// The values of each dimension stand in their order.
pub proof fn lemma_value_order(kind: u16)
    ensures
        bit(false) < bit(true),
        kind_rank(AttemptKind::First) < kind_rank(AttemptKind::Repeat),
        timing_rank(TaskTiming::DueWait) < timing_rank(TaskTiming::DiscoveryAge) < timing_rank(
            TaskTiming::Execution,
        ),
        source_rank(Source::Announce) < source_rank(Source::Dht),
        stage_rank(Stage::Connect) < stage_rank(Stage::StandardHandshake) < stage_rank(
            Stage::ExtensionHandshake,
        ) < stage_rank(Stage::Transfer),
        deadline_rank(Deadline::Nothing) < deadline_rank(Deadline::Stage) < deadline_rank(
            Deadline::Peer,
        ) < deadline_rank(Deadline::Task),
        previous_rank(PreviousConnect::NoHistory) < previous_rank(PreviousConnect::Success)
            < previous_rank(PreviousConnect::Timeout) < previous_rank(
            PreviousConnect::ConnectionRefused,
        ) < previous_rank(PreviousConnect::Unreachable) < previous_rank(PreviousConnect::OtherIo),
        ending_rank(ResultKind::Success) < ending_rank(ResultKind::Timeout) < ending_rank(
            ResultKind::Eof,
        ) < ending_rank(ResultKind::Reset) < ending_rank(ResultKind::Io) < ending_rank(
            ResultKind::Unsupported,
        ) < ending_rank(ResultKind::Protocol) < ending_rank(ResultKind::HashMismatch) < ending_rank(
            ResultKind::Limit,
        ) < ending_rank(ResultKind::Rejected) < ending_rank(ResultKind::Cancelled),
        failure_rank(AttemptFailure::NoPeers) < failure_rank(AttemptFailure::PeerIo) < failure_rank(
            AttemptFailure::PeerTimeout,
        ) < failure_rank(AttemptFailure::Protocol) < failure_rank(AttemptFailure::HashMismatch)
            < failure_rank(AttemptFailure::Unsupported) < failure_rank(AttemptFailure::ReceiveLimit)
            < failure_rank(AttemptFailure::Rejected) < failure_rank(
            AttemptFailure::MetadataUnavailable,
        ) < failure_rank(AttemptFailure::TaskTimeout) < failure_rank(AttemptFailure::Other),
        reason_rank(FailureReason::Protocol(kind)) < reason_rank(FailureReason::Resource(kind))
            < reason_rank(FailureReason::ConnectionRefused) < reason_rank(
            FailureReason::NetworkUnreachable,
        ) < reason_rank(FailureReason::HostUnreachable) < reason_rank(
            FailureReason::PermissionDenied,
        ) < reason_rank(FailureReason::OtherIo) < reason_rank(FailureReason::Eof) < reason_rank(
            FailureReason::Reset,
        ) < reason_rank(FailureReason::Timeout) < reason_rank(FailureReason::Unsupported)
            < reason_rank(FailureReason::Rejected) < reason_rank(FailureReason::HashMismatch),
{
}

/// Numbered kinds stand by their number, all of the protocol before all of the resources. What is
/// missing stands before what is there, and remote failures stand between downloads and deferrals.
pub proof fn lemma_numbered_order(
    a: u16,
    b: u16,
    failure: AttemptFailure,
    other: AttemptFailure,
    kind: AttemptKind,
    reason: FailureReason,
)
    ensures
        a < b ==> reason_rank(FailureReason::Protocol(a)) < reason_rank(FailureReason::Protocol(b)),
        a < b ==> reason_rank(FailureReason::Resource(a)) < reason_rank(FailureReason::Resource(b)),
        reason_rank(FailureReason::Protocol(a)) < reason_rank(FailureReason::Resource(b))
            < reason_rank(FailureReason::ConnectionRefused),
        some_kind_rank(None) < some_kind_rank(Some(kind)),
        some_reason_rank(None) < some_reason_rank(Some(reason)),
        some_kind_rank(Some(AttemptKind::First)) < some_kind_rank(Some(AttemptKind::Repeat)),
        result_rank(AttemptResult::Observed) < result_rank(AttemptResult::Downloaded) < result_rank(
            AttemptResult::RemoteFailure(failure),
        ) < result_rank(AttemptResult::LocalDeferral) < result_rank(AttemptResult::ControlFailure)
            < result_rank(AttemptResult::Cancelled),
        failure_rank(failure) < failure_rank(other) ==> result_rank(
            AttemptResult::RemoteFailure(failure),
        ) < result_rank(AttemptResult::RemoteFailure(other)),
{
}

/// Contexts are ordered by their kind, then by their class, then by their failures, then by their
/// hint.
pub proof fn lemma_context_order(a: AttemptContext, b: AttemptContext)
    ensures
        a.rank() < b.rank() <==> {
            ||| kind_rank(a.kind) < kind_rank(b.kind)
            ||| a.kind == b.kind && a.class.code() < b.class.code()
            ||| a.kind == b.kind && a.class == b.class && a.failed_attempts_before
                < b.failed_attempts_before
            ||| a.kind == b.kind && a.class == b.class && a.failed_attempts_before
                == b.failed_attempts_before && !a.had_valid_hint && b.had_valid_hint
        },
{
}

/// Histories are ordered by their kind, then by their failures, and hints by their kind first.
pub proof fn lemma_history_order(
    a: AttemptHistory,
    b: AttemptHistory,
    one: HintKey,
    two: HintKey,
)
    ensures
        a.rank() < b.rank() <==> {
            ||| kind_rank(a.kind) < kind_rank(b.kind)
            ||| a.kind == b.kind && a.failed_attempts_before < b.failed_attempts_before
        },
        one.rank() < two.rank() <==> {
            ||| kind_rank(one.kind) < kind_rank(two.kind)
            ||| one.kind == two.kind && !one.had_valid_hint && two.had_valid_hint
        },
{
}

/// What is timed is ordered by whose it is, then by what is timed, then by how it ended.
pub proof fn lemma_timing_order(
    a: AttemptKey,
    b: AttemptKey,
    one: HistoryKey,
    two: HistoryKey,
    left: ClassKey,
    right: ClassKey,
    first: CommitKey,
    second: CommitKey,
)
    ensures
        a.rank() < b.rank() <==> {
            ||| a.context.rank() < b.context.rank()
            ||| a.context == b.context && timing_rank(a.timing) < timing_rank(b.timing)
            ||| a.context == b.context && a.timing == b.timing && result_rank(a.result)
                < result_rank(b.result)
        },
        one.rank() < two.rank() <==> {
            ||| one.history.rank() < two.history.rank()
            ||| one.history == two.history && timing_rank(one.timing) < timing_rank(two.timing)
            ||| one.history == two.history && one.timing == two.timing && result_rank(one.result)
                < result_rank(two.result)
        },
        left.rank() < right.rank() <==> {
            ||| left.history.rank() < right.history.rank()
            ||| left.history == right.history && left.class.code() < right.class.code()
            ||| left.history == right.history && left.class == right.class && timing_rank(
                left.timing,
            ) < timing_rank(right.timing)
            ||| left.history == right.history && left.class == right.class && left.timing
                == right.timing && result_rank(left.result) < result_rank(right.result)
        },
        first.rank() < second.rank() <==> {
            ||| first.history.rank() < second.history.rank()
            ||| first.history == second.history && first.class.code() < second.class.code()
        },
{
    AttemptContext::lemma_rank(a.context, b.context);
    AttemptHistory::lemma_rank(one.history, two.history);
    AttemptHistory::lemma_rank(left.history, right.history);
    AttemptHistory::lemma_rank(first.history, second.history);
}

/// What happened to a peer is ordered by the stage, the source, the family, the end and the deadline.
pub proof fn lemma_peer_order(a: PeerKey, b: PeerKey)
    ensures
        ({
            let stages = stage_rank(a.stage) == stage_rank(b.stage);
            let sources = stages && source_rank(a.source) == source_rank(b.source);
            let families = sources && a.ipv6 == b.ipv6;
            let ends = families && ending_rank(a.result) == ending_rank(b.result);
            a.rank() < b.rank() <==> {
                ||| stage_rank(a.stage) < stage_rank(b.stage)
                ||| stages && source_rank(a.source) < source_rank(b.source)
                ||| sources && !a.ipv6 && b.ipv6
                ||| families && ending_rank(a.result) < ending_rank(b.result)
                ||| ends && deadline_rank(a.deadline) < deadline_rank(b.deadline)
            }
        }),
{
    let (a1, b1) = (stage_rank(a.stage), stage_rank(b.stage));
    let (a2, b2) = (source_rank(a.source), source_rank(b.source));
    let (a3, b3) = (bit(a.ipv6), bit(b.ipv6));
    let (a4, b4) = (ending_rank(a.result), ending_rank(b.result));
    let (a5, b5) = (deadline_rank(a.deadline), deadline_rank(b.deadline));
    let (x2, y2) = (a1 * 2 + a2, b1 * 2 + b2);
    let (x3, y3) = (x2 * 2 + a3, y2 * 2 + b3);
    let (x4, y4) = (x3 * 11 + a4, y3 * 11 + b4);
    assert(a.rank() == x4 * 4 + a5 && b.rank() == y4 * 4 + b5);
    assert(x2 < y2 <==> a1 < b1 || (a1 == b1 && a2 < b2));
    assert(x2 == y2 <==> a1 == b1 && a2 == b2);
    assert(x3 < y3 <==> x2 < y2 || (x2 == y2 && a3 < b3));
    assert(x3 == y3 <==> x2 == y2 && a3 == b3);
    assert(x4 < y4 <==> x3 < y3 || (x3 == y3 && a4 < b4));
    assert(x4 == y4 <==> x3 == y3 && a4 == b4);
}

/// Handshakes are ordered by the source, the family, the end and the deadline.
pub proof fn lemma_handshake_order(a: HandshakeKey, b: HandshakeKey)
    ensures
        ({
            let sources = source_rank(a.source) == source_rank(b.source);
            let families = sources && a.ipv6 == b.ipv6;
            let ends = families && ending_rank(a.result) == ending_rank(b.result);
            a.rank() < b.rank() <==> {
                ||| source_rank(a.source) < source_rank(b.source)
                ||| sources && !a.ipv6 && b.ipv6
                ||| families && ending_rank(a.result) < ending_rank(b.result)
                ||| ends && deadline_rank(a.deadline) < deadline_rank(b.deadline)
            }
        }),
{
    let (a2, b2) = (source_rank(a.source), source_rank(b.source));
    let (a3, b3) = (bit(a.ipv6), bit(b.ipv6));
    let (a4, b4) = (ending_rank(a.result), ending_rank(b.result));
    let (x3, y3) = (a2 * 2 + a3, b2 * 2 + b3);
    let (x4, y4) = (x3 * 11 + a4, y3 * 11 + b4);
    assert(x3 < y3 <==> a2 < b2 || (a2 == b2 && a3 < b3));
    assert(x3 == y3 <==> a2 == b2 && a3 == b3);
    assert(x4 < y4 <==> x3 < y3 || (x3 == y3 && a4 < b4));
    assert(x4 == y4 <==> x3 == y3 && a4 == b4);
}

/// Failures are ordered by the stage, the source, the family and the reason.
pub proof fn lemma_failure_order(a: FailureKey, b: FailureKey)
    ensures
        ({
            let stages = stage_rank(a.stage) == stage_rank(b.stage);
            let sources = stages && source_rank(a.source) == source_rank(b.source);
            let families = sources && a.ipv6 == b.ipv6;
            a.rank() < b.rank() <==> {
                ||| stage_rank(a.stage) < stage_rank(b.stage)
                ||| stages && source_rank(a.source) < source_rank(b.source)
                ||| sources && !a.ipv6 && b.ipv6
                ||| families && reason_rank(a.reason) < reason_rank(b.reason)
            }
        }),
{
    let (a1, b1) = (stage_rank(a.stage), stage_rank(b.stage));
    let (a2, b2) = (source_rank(a.source), source_rank(b.source));
    let (a3, b3) = (bit(a.ipv6), bit(b.ipv6));
    let (x2, y2) = (a1 * 2 + a2, b1 * 2 + b2);
    let (x3, y3) = (x2 * 2 + a3, y2 * 2 + b3);
    assert(x2 < y2 <==> a1 < b1 || (a1 == b1 && a2 < b2));
    assert(x2 == y2 <==> a1 == b1 && a2 == b2);
    assert(x3 < y3 <==> x2 < y2 || (x2 == y2 && a3 < b3));
    assert(x3 == y3 <==> x2 == y2 && a3 == b3);
}

/// Connections are ordered by the kind of the attempt, the source, the family, the connection before,
/// the end, the reason and the deadline.
pub proof fn lemma_connection_order(a: ConnectionKey, b: ConnectionKey)
    ensures
        ({
            let kinds = some_kind_rank(a.attempt_kind) == some_kind_rank(b.attempt_kind);
            let sources = kinds && source_rank(a.source) == source_rank(b.source);
            let families = sources && a.ipv6 == b.ipv6;
            let previous = families && previous_rank(a.previous) == previous_rank(b.previous);
            let ends = previous && ending_rank(a.result) == ending_rank(b.result);
            let reasons = ends && some_reason_rank(a.reason) == some_reason_rank(b.reason);
            a.rank() < b.rank() <==> {
                ||| some_kind_rank(a.attempt_kind) < some_kind_rank(b.attempt_kind)
                ||| kinds && source_rank(a.source) < source_rank(b.source)
                ||| sources && !a.ipv6 && b.ipv6
                ||| families && previous_rank(a.previous) < previous_rank(b.previous)
                ||| previous && ending_rank(a.result) < ending_rank(b.result)
                ||| ends && some_reason_rank(a.reason) < some_reason_rank(b.reason)
                ||| reasons && deadline_rank(a.deadline) < deadline_rank(b.deadline)
            }
        }),
{
    let place = |key: ConnectionKey|
        (
            some_kind_rank(key.attempt_kind),
            source_rank(key.source),
            bit(key.ipv6),
            previous_rank(key.previous),
            ending_rank(key.result),
            some_reason_rank(key.reason),
            deadline_rank(key.deadline),
        );
    let (a1, a2, a3, a4, a5, a6, a7) = place(a);
    let (b1, b2, b3, b4, b5, b6, b7) = place(b);
    let (x2, y2) = (a1 * 2 + a2, b1 * 2 + b2);
    let (x3, y3) = (x2 * 2 + a3, y2 * 2 + b3);
    let (x4, y4) = (x3 * 6 + a4, y3 * 6 + b4);
    let (x5, y5) = (x4 * 11 + a5, y4 * 11 + b5);
    let (x6, y6) = (x5 * 0x4_0000 + a6, y5 * 0x4_0000 + b6);
    assert(a.rank() == x6 * 4 + a7 && b.rank() == y6 * 4 + b7);
    assert(x2 < y2 <==> a1 < b1 || (a1 == b1 && a2 < b2));
    assert(x2 == y2 <==> a1 == b1 && a2 == b2);
    assert(x3 < y3 <==> x2 < y2 || (x2 == y2 && a3 < b3));
    assert(x3 == y3 <==> x2 == y2 && a3 == b3);
    assert(x4 < y4 <==> x3 < y3 || (x3 == y3 && a4 < b4));
    assert(x4 == y4 <==> x3 == y3 && a4 == b4);
    assert(x5 < y5 <==> x4 < y4 || (x4 == y4 && a5 < b5));
    assert(x5 == y5 <==> x4 == y4 && a5 == b5);
    assert(x6 < y6 <==> x5 < y5 || (x5 == y5 && a6 < b6));
    assert(x6 == y6 <==> x5 == y5 && a6 == b6);
}

/// A refused, an unreachable and a forbidden connection have reasons of their own. Whatever ends a
/// stream early counts as its end or as a reset, and both wrong hashes count as one.
pub proof fn lemma_reasons(kind: u16, detailed: bool, deadline: Deadline)
    ensures
        reason_of(PeerError::Protocol { kind, detailed }) == FailureReason::Protocol(kind),
        reason_of(PeerError::Limit(kind)) == FailureReason::Resource(kind),
        reason_of(PeerError::Io(IoKind::ConnectionRefused)) is ConnectionRefused,
        reason_of(PeerError::Io(IoKind::NetworkUnreachable)) is NetworkUnreachable,
        reason_of(PeerError::Io(IoKind::HostUnreachable)) is HostUnreachable,
        reason_of(PeerError::Io(IoKind::PermissionDenied)) is PermissionDenied,
        reason_of(PeerError::Io(IoKind::UnexpectedEof)) is Eof,
        reason_of(PeerError::Disconnected) is Eof,
        reason_of(PeerError::Io(IoKind::ConnectionReset)) is Reset,
        reason_of(PeerError::Io(IoKind::ConnectionAborted)) is Reset,
        reason_of(PeerError::Io(IoKind::BrokenPipe)) is Reset,
        reason_of(PeerError::Io(IoKind::TimedOut)) is Timeout,
        reason_of(PeerError::Timeout(deadline)) is Timeout,
        reason_of(PeerError::Io(IoKind::Other)) is OtherIo,
        reason_of(PeerError::Unsupported) is Unsupported,
        reason_of(PeerError::Rejected) is Rejected,
        reason_of(PeerError::HashMismatch) is HashMismatch,
        reason_of(PeerError::HandshakeHashMismatch) is HashMismatch,
{
}

/// An error ends a stage as what it is. A time-out of the system is an error of the stream, and only
/// a deadline of this program is a time-out.
pub proof fn lemma_error_kinds(kind: u16, detailed: bool, deadline: Deadline, io: IoKind)
    ensures
        kind_of_error(PeerError::Timeout(deadline)) is Timeout,
        kind_of_error(PeerError::Disconnected) is Eof,
        kind_of_error(PeerError::Io(IoKind::UnexpectedEof)) is Eof,
        io is ConnectionReset || io is ConnectionAborted || io is BrokenPipe ==> kind_of_error(
            PeerError::Io(io),
        ) is Reset,
        !(io is UnexpectedEof || io is ConnectionReset || io is ConnectionAborted || io
            is BrokenPipe) ==> kind_of_error(PeerError::Io(io)) is Io,
        kind_of_error(PeerError::Protocol { kind, detailed }) is Protocol,
        kind_of_error(PeerError::Unsupported) is Unsupported,
        kind_of_error(PeerError::Limit(kind)) is Limit,
        kind_of_error(PeerError::Rejected) is Rejected,
        kind_of_error(PeerError::HashMismatch) is HashMismatch,
        kind_of_error(PeerError::HandshakeHashMismatch) is HashMismatch,
{
}

/// The history of a context is its kind and its failures. The names of results do not tell failures
/// apart.
pub proof fn lemma_context_past(context: AttemptContext, failure: AttemptFailure)
    ensures
        context.past().kind == context.kind,
        context.past().failed_attempts_before == context.failed_attempts_before,
        AttemptResult::Observed.text() == "Observed"@,
        AttemptResult::Downloaded.text() == "Downloaded"@,
        AttemptResult::RemoteFailure(failure).text() == "RemoteFailure"@,
        AttemptResult::LocalDeferral.text() == "LocalDeferral"@,
        AttemptResult::ControlFailure.text() == "ControlFailure"@,
        AttemptResult::Cancelled.text() == "Cancelled"@,
{
}

} // verus!
