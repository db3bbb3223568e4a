//! What becomes of a task that ended.

use crate::session::faults::{
    classify_collector_error, fault_of, published, published_all, CollectorError, FaultLog,
    FaultModel, FaultReporter, SessionFault, StorageError, TaskRole,
};
use vstd::prelude::*;

verus! {

/// How a task ended.
#[derive(Debug)]
pub enum TaskEnd {
    /// The collector, by itself or with its errors.
    Fetch(Result<(), Vec<CollectorError>>),
    /// The dispatcher of a node, with the error of the network.
    Dispatcher(Option<String>),
    /// The task that saves the contacts of a node.
    Snapshot(Option<StorageError>),
    /// The task that takes the samples of a node.
    Collector(Option<StorageError>),
    /// By cancellation or a panic.
    Failed { cancelled: bool, detail: String },
}

/// The faults that errors of the collector are.
pub open spec fn faults_of(errors: Seq<CollectorError>) -> Seq<FaultModel> {
    Seq::new(errors.len(), |i: int| fault_of(errors[i]))
}

/// The fault of a task that ended. While the session closes only what went wrong is one; while it
/// runs, so is every task that ends by itself, except that samples are not missed once the store
/// failed.
pub open spec fn fault_after(
    end: TaskEnd,
    role: TaskRole,
    closing: bool,
    standing: Option<FaultModel>,
) -> Option<FaultModel> {
    match end {
        TaskEnd::Fetch(result) => if result is Ok && !closing {
            Some(FaultModel::TaskExited { role, detail: "采集协调器提前结束"@ })
        } else {
            None
        },
        TaskEnd::Dispatcher(error) => if closing {
            None
        } else {
            Some(
                FaultModel::TaskExited {
                    role,
                    detail: match error {
                        Some(error) => error@,
                        None => "正常返回但没有收到关闭请求"@,
                    },
                },
            )
        },
        TaskEnd::Snapshot(error) => match error {
            Some(error) => Some(FaultModel::StorageWrite(error@)),
            None => if closing {
                None
            } else {
                Some(FaultModel::TaskExited { role, detail: "快照任务提前结束"@ })
            },
        },
        TaskEnd::Collector(error) => match error {
            Some(error) => Some(FaultModel::StorageWrite(error@)),
            None => if closing || (standing is Some && standing->0 is StorageWrite) {
                None
            } else {
                Some(FaultModel::TaskExited { role, detail: "采集通道提前关闭"@ })
            },
        },
        TaskEnd::Failed { cancelled, detail } => Some(
            FaultModel::TaskFailed { cancelled, role, detail: detail@ },
        ),
    }
}

/// The fault that stands after a task ended.
pub open spec fn standing_after(
    end: TaskEnd,
    role: TaskRole,
    closing: bool,
    standing: Option<FaultModel>,
) -> Option<FaultModel> {
    let told = match end {
        TaskEnd::Fetch(Err(errors)) => published_all(standing, faults_of(errors@)),
        _ => standing,
    };
    match fault_after(end, role, closing, standing) {
        Some(fault) => published(told, fault),
        None => told,
    }
}

/// Takes note of a task that ended.
pub fn accept_task(
    reporter: &mut FaultReporter,
    log: &mut FaultLog,
    role: TaskRole,
    end: TaskEnd,
    closing: bool,
)
    ensures
        final(reporter)@ == standing_after(end, role, closing, old(reporter)@),
        final(log)@ == match fault_after(end, role, closing, old(reporter)@) {
            Some(fault) => old(log)@.push(fault.message_text()),
            None => old(log)@,
        },
{
    let fault: Option<SessionFault> = match end {
        TaskEnd::Fetch(Err(errors)) => {
            let ghost standing = reporter@;
            for i in 0..errors.len()
                invariant
                    reporter@ == published_all(standing, faults_of(errors@).take(i as int)),
            {
                proof {
                    let all = faults_of(errors@);
                    assert(all.take(i + 1).drop_last() =~= all.take(i as int));
                    assert(all.take(i + 1).last() == fault_of(errors@[i as int]));
                }
                reporter.publish(classify_collector_error(&errors[i]));
            }
            assert(faults_of(errors@).take(errors@.len() as int) =~= faults_of(errors@));
            None
        },
        TaskEnd::Fetch(Ok(())) => if closing {
            None
        } else {
            Some(SessionFault::TaskExited { role, detail: "采集协调器提前结束".to_owned() })
        },
        TaskEnd::Dispatcher(error) => {
            if closing {
                None
            } else {
                let detail = match error {
                    Some(error) => error,
                    None => "正常返回但没有收到关闭请求".to_owned(),
                };
                Some(SessionFault::TaskExited { role, detail })
            }
        },
        TaskEnd::Snapshot(error) => match error {
            Some(error) => Some(SessionFault::StorageWrite(error)),
            None => if closing {
                None
            } else {
                Some(SessionFault::TaskExited { role, detail: "快照任务提前结束".to_owned() })
            },
        },
        TaskEnd::Collector(error) => match error {
            Some(error) => Some(SessionFault::StorageWrite(error)),
            None => {
                let store_failed = match &reporter.current {
                    Some(SessionFault::StorageWrite(_)) => true,
                    _ => false,
                };
                if closing || store_failed {
                    None
                } else {
                    Some(SessionFault::TaskExited { role, detail: "采集通道提前关闭".to_owned() })
                }
            },
        },
        TaskEnd::Failed { cancelled, detail } => Some(
            SessionFault::TaskFailed { cancelled, role, detail },
        ),
    };
    match fault {
        Some(fault) => {
            log.push(fault.message());
            reporter.publish(fault);
        },
        None => {},
    }
}

/// While the session closes, a task that ends well is no fault.
pub proof fn lemma_closing_is_quiet(role: TaskRole, standing: Option<FaultModel>)
    ensures
        fault_after(TaskEnd::Fetch(Ok(())), role, true, standing) is None,
        fault_after(TaskEnd::Dispatcher(None), role, true, standing) is None,
        fault_after(TaskEnd::Snapshot(None), role, true, standing) is None,
        fault_after(TaskEnd::Collector(None), role, true, standing) is None,
{
}

/// A task that ends by itself while nothing closes is a fault under its own text, except that the
/// samples may end where a write has failed. An error of the store is a failed write, and a
/// cancellation or a panic a failed task, whatever else goes on.
pub proof fn lemma_task_ends(
    role: TaskRole,
    closing: bool,
    standing: Option<FaultModel>,
    text: String,
    error: StorageError,
    errors: Vec<CollectorError>,
    cancelled: bool,
)
    ensures
        ({
            let exited = |detail: Seq<char>| Some(FaultModel::TaskExited { role, detail });
            let stored = standing is Some && standing->0 is StorageWrite;
            &&& fault_after(TaskEnd::Fetch(Err(errors)), role, closing, standing) is None
            &&& closing ==> fault_after(TaskEnd::Dispatcher(Some(text)), role, closing, standing)
                is None
            &&& !closing ==> {
                &&& fault_after(TaskEnd::Fetch(Ok(())), role, closing, standing) == exited(
                    "采集协调器提前结束"@,
                )
                &&& fault_after(TaskEnd::Dispatcher(None), role, closing, standing) == exited(
                    "正常返回但没有收到关闭请求"@,
                )
                &&& fault_after(TaskEnd::Dispatcher(Some(text)), role, closing, standing) == exited(
                    text@,
                )
                &&& fault_after(TaskEnd::Snapshot(None), role, closing, standing) == exited(
                    "快照任务提前结束"@,
                )
                &&& !stored ==> fault_after(TaskEnd::Collector(None), role, closing, standing)
                    == exited("采集通道提前关闭"@)
            }
            &&& stored ==> fault_after(TaskEnd::Collector(None), role, closing, standing) is None
            &&& fault_after(TaskEnd::Snapshot(Some(error)), role, closing, standing) == Some(
                FaultModel::StorageWrite(error@),
            )
            &&& fault_after(TaskEnd::Collector(Some(error)), role, closing, standing) == Some(
                FaultModel::StorageWrite(error@),
            )
            &&& fault_after(TaskEnd::Failed { cancelled, detail: text }, role, closing, standing)
                == Some(FaultModel::TaskFailed { cancelled, role, detail: text@ })
        }),
{
}

/// What stands after a task ended: the errors of the collector are published first, one by one, and
/// then what its end means.
pub proof fn lemma_standing(
    end: TaskEnd,
    role: TaskRole,
    closing: bool,
    standing: Option<FaultModel>,
    errors: Vec<CollectorError>,
)
    ensures
        standing_after(TaskEnd::Fetch(Err(errors)), role, closing, standing) == published_all(
            standing,
            faults_of(errors@),
        ),
        !(end is Fetch) ==> standing_after(end, role, closing, standing) == match fault_after(
            end,
            role,
            closing,
            standing,
        ) {
            Some(fault) => published(standing, fault),
            None => standing,
        },
        faults_of(errors@).len() == errors@.len(),
        forall|i: int|
            0 <= i < errors@.len() ==> faults_of(errors@)[i] == fault_of(#[trigger] errors@[i]),
        standing_after(TaskEnd::Fetch(Ok(())), role, true, standing) == standing,
        standing_after(TaskEnd::Fetch(Ok(())), role, false, standing) == published(
            standing,
            FaultModel::TaskExited { role, detail: "采集协调器提前结束"@ },
        ),
{
}

} // verus!
