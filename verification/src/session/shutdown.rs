//! The order in which a session closes, and what is told of it.

use crate::bounded::decimal_text;
use crate::session::faults::{joined, texts_of, FaultLog, FaultReporter};
use vstd::prelude::*;

verus! {

/// How long the close of a session may take in all, in seconds.
pub const SHUTDOWN_SECONDS: u64 = 30;

/// The stages of the close.
#[derive(Clone, Copy, Debug, PartialEq, Eq, Structural)]
pub enum ShutdownStage {
    NotStarted,
    ReclaimCollector,
    StopSampling,
    CloseNodes,
    ReclaimNodes,
    SaveNode(usize),
    FinalStats,
    CloseDatabase,
    Closed,
}

impl ShutdownStage {
    /// The name of a stage.
    pub open spec fn text(self) -> Seq<char> {
        match self {
            ShutdownStage::NotStarted => "尚未开始"@,
            ShutdownStage::ReclaimCollector => "回收采集协调器"@,
            ShutdownStage::StopSampling => "停止节点采样"@,
            ShutdownStage::CloseNodes => "关闭节点"@,
            ShutdownStage::ReclaimNodes => "回收节点任务"@,
            ShutdownStage::SaveNode(index) => "保存节点 "@ + decimal_text(index as int) + " 状态"@,
            ShutdownStage::FinalStats => "关闭数据库（读取最终统计）"@,
            ShutdownStage::CloseDatabase => "关闭数据库"@,
            ShutdownStage::Closed => "关闭数据库"@,
        }
    }

    /// The stage behind a stage, in a session with `nodes` nodes.
    pub open spec fn next(self, nodes: int) -> ShutdownStage {
        match self {
            ShutdownStage::NotStarted => ShutdownStage::ReclaimCollector,
            ShutdownStage::ReclaimCollector => ShutdownStage::StopSampling,
            ShutdownStage::StopSampling => ShutdownStage::CloseNodes,
            ShutdownStage::CloseNodes => ShutdownStage::ReclaimNodes,
            ShutdownStage::ReclaimNodes => if nodes > 0 {
                ShutdownStage::SaveNode(0)
            } else {
                ShutdownStage::FinalStats
            },
            ShutdownStage::SaveNode(index) => if index + 1 < nodes {
                ShutdownStage::SaveNode((index + 1) as usize)
            } else {
                ShutdownStage::FinalStats
            },
            ShutdownStage::FinalStats => ShutdownStage::CloseDatabase,
            ShutdownStage::CloseDatabase => ShutdownStage::Closed,
            ShutdownStage::Closed => ShutdownStage::Closed,
        }
    }

    /// The stage after `n` steps from the start.
    pub open spec fn after(nodes: int, n: nat) -> ShutdownStage
        decreases n,
    {
        if n == 0 {
            ShutdownStage::NotStarted
        } else {
            ShutdownStage::after(nodes, (n - 1) as nat).next(nodes)
        }
    }

    /// The name of the stage.
    pub fn name(self) -> (name: String)
        ensures
            name@ == self.text(),
    {
        match self {
            ShutdownStage::NotStarted => "尚未开始".to_owned(),
            ShutdownStage::ReclaimCollector => "回收采集协调器".to_owned(),
            ShutdownStage::StopSampling => "停止节点采样".to_owned(),
            ShutdownStage::CloseNodes => "关闭节点".to_owned(),
            ShutdownStage::ReclaimNodes => "回收节点任务".to_owned(),
            ShutdownStage::SaveNode(index) => joined("保存节点 ", index, " 状态"),
            ShutdownStage::FinalStats => "关闭数据库（读取最终统计）".to_owned(),
            ShutdownStage::CloseDatabase => "关闭数据库".to_owned(),
            ShutdownStage::Closed => "关闭数据库".to_owned(),
        }
    }

    /// Whether the stage waits for one more task to end: first for the collector, and later for
    /// every task of the nodes.
    pub fn waits(self, fetching: bool, tasks: usize) -> (waits: bool)
        ensures
            waits == match self {
                ShutdownStage::ReclaimCollector => fetching,
                ShutdownStage::ReclaimNodes => tasks > 0,
                _ => false,
            },
    {
        match self {
            ShutdownStage::ReclaimCollector => fetching,
            ShutdownStage::ReclaimNodes => tasks > 0,
            _ => false,
        }
    }

    /// The stage behind the stage.
    pub fn enter_next(self, nodes: usize) -> (next: ShutdownStage)
        ensures
            next == self.next(nodes as int),
    {
        match self {
            ShutdownStage::NotStarted => ShutdownStage::ReclaimCollector,
            ShutdownStage::ReclaimCollector => ShutdownStage::StopSampling,
            ShutdownStage::StopSampling => ShutdownStage::CloseNodes,
            ShutdownStage::CloseNodes => ShutdownStage::ReclaimNodes,
            ShutdownStage::ReclaimNodes => if nodes > 0 {
                ShutdownStage::SaveNode(0)
            } else {
                ShutdownStage::FinalStats
            },
            ShutdownStage::SaveNode(index) => if index < nodes && nodes - index > 1 {
                ShutdownStage::SaveNode(index + 1)
            } else {
                ShutdownStage::FinalStats
            },
            ShutdownStage::FinalStats => ShutdownStage::CloseDatabase,
            ShutdownStage::CloseDatabase => ShutdownStage::Closed,
            ShutdownStage::Closed => ShutdownStage::Closed,
        }
    }
}

/// Every node is saved once, behind the reclaim of its tasks and before the database closes; after
/// that the session is closed.
pub proof fn lemma_stages(nodes: usize, index: int)
    ensures
        0 <= index < nodes ==> ShutdownStage::after(nodes as int, (5 + index) as nat)
            == ShutdownStage::SaveNode(index as usize),
        ShutdownStage::after(nodes as int, 4) == ShutdownStage::ReclaimNodes,
        ShutdownStage::after(nodes as int, (5 + nodes) as nat) == ShutdownStage::FinalStats,
        ShutdownStage::after(nodes as int, (6 + nodes) as nat) == ShutdownStage::CloseDatabase,
        ShutdownStage::after(nodes as int, (7 + nodes) as nat) == ShutdownStage::Closed,
{
    let all = nodes as int;
    reveal_with_fuel(ShutdownStage::after, 6);
    assert(ShutdownStage::after(all, 4) == ShutdownStage::ReclaimNodes);
    lemma_saved(nodes, if 0 <= index < nodes {
        index
    } else {
        0
    });
    if nodes > 0 {
        lemma_saved(nodes, nodes - 1);
    }
    assert(ShutdownStage::after(all, (5 + nodes) as nat) == ShutdownStage::FinalStats);
    assert(ShutdownStage::after(all, (6 + nodes) as nat) == ShutdownStage::CloseDatabase);
    assert(ShutdownStage::after(all, (7 + nodes) as nat) == ShutdownStage::Closed);
}

proof fn lemma_saved(nodes: usize, index: int)
    ensures
        0 <= index < nodes ==> ShutdownStage::after(nodes as int, (5 + index) as nat)
            == ShutdownStage::SaveNode(index as usize),
    decreases index,
{
    if 0 < index < nodes {
        lemma_saved(nodes, index - 1);
    } else if index == 0 && nodes > 0 {
        reveal_with_fuel(ShutdownStage::after, 6);
    }
}

/// An error of a node that is asked to stop or to close.
#[derive(Clone, Copy, Debug, PartialEq, Eq, Structural)]
pub enum NodeError {
    DispatcherClosed,
    ShuttingDown,
    Other,
}

/// Whether a node that does not stop taking samples is told of: not where it is closed.
pub fn tells_of_sampling(error: NodeError) -> (tells: bool)
    ensures
        tells == !(error is DispatcherClosed),
{
    match error {
        NodeError::DispatcherClosed => false,
        _ => true,
    }
}

/// Whether a node that does not close is told of: not where it is closed or closes already.
pub fn tells_of_closing(error: NodeError) -> (tells: bool)
    ensures
        tells == (error is Other),
{
    match error {
        NodeError::Other => true,
        _ => false,
    }
}

/// The texts with one more, where there is one.
pub open spec fn with_text(texts: Seq<Seq<char>>, text: Option<Seq<char>>) -> Seq<Seq<char>> {
    match text {
        Some(text) => texts.push(text),
        None => texts,
    }
}

/// The text of an error that there may be.
pub open spec fn text_of(error: Option<String>) -> Option<Seq<char>> {
    match error {
        Some(error) => Some(error@),
        None => None,
    }
}

/// Adds an error that there may be.
fn push_some(log: &mut FaultLog, error: Option<String>)
    ensures
        final(log)@ == with_text(old(log)@, text_of(error)),
{
    match error {
        Some(error) => log.push(error),
        None => {},
    }
}

/// Takes note of what went wrong when a node was saved: on the network, when the last writes were
/// made, with its contacts and with its samples.
pub fn note_saved_node(
    log: &mut FaultLog,
    network: Option<String>,
    flush: Option<String>,
    contacts: Option<String>,
    samples: Option<String>,
)
    ensures
        final(log)@ == with_text(
            with_text(
                with_text(with_text(old(log)@, text_of(network)), text_of(flush)),
                text_of(contacts),
            ),
            text_of(samples),
        ),
{
    push_some(log, network);
    push_some(log, flush);
    push_some(log, contacts);
    push_some(log, samples);
}

/// The text on a fault that stands.
pub open spec fn standing_text(reporter: FaultReporter) -> Option<Seq<char>> {
    match reporter@ {
        Some(fault) => Some(fault.message_text()),
        None => None,
    }
}

/// Takes note of the fault that stands, once all nodes are saved.
pub fn note_standing_fault(log: &mut FaultLog, reporter: &FaultReporter)
    ensures
        final(log)@ == with_text(old(log)@, standing_text(*reporter)),
{
    match &reporter.current {
        Some(fault) => log.push(fault.message()),
        None => {},
    }
}

/// The result of the close: all that went wrong, or nothing.
pub fn shutdown_result(log: &mut FaultLog) -> (result: Result<(), Vec<String>>)
    ensures
        old(log)@.len() == 0 ==> result is Ok,
        old(log)@.len() > 0 ==> result is Err && texts_of(result->Err_0@) == old(log)@,
        final(log)@.len() == 0,
{
    let texts = log.take();
    assert(texts_of(texts@).len() == texts@.len());
    if texts.len() == 0 {
        Ok(())
    } else {
        Err(texts)
    }
}

/// What is told of a close that took too long.
pub open spec fn overdue_text(stage: ShutdownStage) -> Seq<char> {
    "持久化关闭超过 30 秒（阶段："@ + stage.text() + "）；未确认的结果可能尚未落盘"@
}

/// The result of a close that took too long: all that went wrong until then, the fault that stands,
/// and the stage that was reached.
pub fn overdue_result(log: &mut FaultLog, reporter: &FaultReporter, stage: ShutdownStage) -> (texts:
    Vec<String>)
    ensures
        texts_of(texts@) == with_text(old(log)@, standing_text(*reporter)).push(
            overdue_text(stage),
        ),
        final(log)@.len() == 0,
{
    note_standing_fault(log, reporter);
    let mut text = "持久化关闭超过 30 秒（阶段：".to_owned();
    text.push_str(stage.name().as_str());
    text.push_str("）；未确认的结果可能尚未落盘");
    log.push(text);
    log.take()
}

/// A shutdown takes the collector first, then the samples, then the nodes, saves each of these in
/// turn, and closes the database last. Closed is where it ends.
pub proof fn lemma_stage_order(nodes: int, index: usize)
    requires
        0 <= nodes <= usize::MAX,
    ensures
        ShutdownStage::NotStarted.next(nodes) is ReclaimCollector,
        ShutdownStage::ReclaimCollector.next(nodes) is StopSampling,
        ShutdownStage::StopSampling.next(nodes) is CloseNodes,
        ShutdownStage::CloseNodes.next(nodes) is ReclaimNodes,
        nodes == 0 ==> ShutdownStage::ReclaimNodes.next(nodes) is FinalStats,
        nodes > 0 ==> ShutdownStage::ReclaimNodes.next(nodes) == ShutdownStage::SaveNode(0),
        index + 1 < nodes ==> ShutdownStage::SaveNode(index).next(nodes) == ShutdownStage::SaveNode(
            (index + 1) as usize,
        ),
        index + 1 >= nodes ==> ShutdownStage::SaveNode(index).next(nodes) is FinalStats,
        ShutdownStage::FinalStats.next(nodes) is CloseDatabase,
        ShutdownStage::CloseDatabase.next(nodes) is Closed,
        ShutdownStage::Closed.next(nodes) is Closed,
        ShutdownStage::after(nodes, 0) is NotStarted,
        SHUTDOWN_SECONDS == 30,
{
}

/// The names of the stages, and what is told of a shutdown that takes too long.
pub proof fn lemma_stage_texts(index: usize, stage: ShutdownStage)
    ensures
        ShutdownStage::NotStarted.text() == "尚未开始"@,
        ShutdownStage::ReclaimCollector.text() == "回收采集协调器"@,
        ShutdownStage::StopSampling.text() == "停止节点采样"@,
        ShutdownStage::CloseNodes.text() == "关闭节点"@,
        ShutdownStage::ReclaimNodes.text() == "回收节点任务"@,
        ShutdownStage::SaveNode(index).text() == "保存节点 "@ + decimal_text(index as int)
            + " 状态"@,
        ShutdownStage::FinalStats.text() == "关闭数据库（读取最终统计）"@,
        ShutdownStage::CloseDatabase.text() == "关闭数据库"@,
        ShutdownStage::Closed.text() == "关闭数据库"@,
        overdue_text(stage) == "持久化关闭超过 30 秒（阶段："@ + stage.text()
            + "）；未确认的结果可能尚未落盘"@,
{
}

/// A text that is there is added behind the others, and the fault that stands is told by its message.
pub proof fn lemma_added_text(texts: Seq<Seq<char>>, text: Seq<char>, reporter: FaultReporter)
    ensures
        with_text(texts, None) == texts,
        with_text(texts, Some(text)).len() == texts.len() + 1,
        with_text(texts, Some(text)).last() == text,
        with_text(texts, Some(text)).drop_last() == texts,
        reporter.current is None ==> standing_text(reporter) is None,
        reporter.current matches Some(fault) ==> standing_text(reporter) == Some(
            fault@.message_text(),
        ),
{
    assert(texts.push(text).drop_last() =~= texts);
}

/// The text of an error is the error's.
pub proof fn lemma_error_text(error: Option<String>)
    ensures
        text_of(error) is Some <==> error is Some,
        error matches Some(text) ==> text_of(error) == Some(text@),
{
}

} // verus!
