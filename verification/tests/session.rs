use bt_sniffer::session::faults::{
    CollectorError, FaultLog, FaultReporter, SessionFault, StorageError, StorageKind, TaskRole,
};
use bt_sniffer::session::running::{Run, RunEvent, RunNext, StartEnd};
use bt_sniffer::session::shutdown::{
    note_saved_node, note_standing_fault, overdue_result, shutdown_result, tells_of_closing,
    tells_of_sampling, NodeError, ShutdownStage,
};
use bt_sniffer::session::snapshots::{snapshot_step, SnapshotAction, SnapshotEvent};
use bt_sniffer::session::startup::Roster;
use bt_sniffer::session::supervision::{accept_task, TaskEnd};

fn capacity() -> StorageError {
    StorageError {
        kind: StorageKind::Capacity,
        text: "full".into(),
    }
}

fn closed() -> StorageError {
    StorageError {
        kind: StorageKind::Closed,
        text: "closed".into(),
    }
}

#[test]
fn fatal_fault_is_sticky() {
    let mut report = FaultReporter::new();
    report.publish(SessionFault::DatabaseExited);
    report.publish(SessionFault::StorageWrite(capacity()));
    assert_eq!(report.current, Some(SessionFault::DatabaseExited));
}

#[test]
fn fault_callbacks_record_synchronously_and_preserve_classification() {
    for (error, text) in [
        (CollectorError::Storage(capacity()), "full"),
        (CollectorError::Other("clock".into()), "clock"),
        (CollectorError::Other("lookup".into()), "lookup"),
    ] {
        let mut report = FaultReporter::new();
        let mut faults = FaultLog::new();
        assert!(report.record_collector_error(&mut faults, &error));
        assert_eq!(faults.take(), vec![text.to_string()]);
        assert!(faults.take().is_empty());
        let expected = match error {
            CollectorError::Storage(value) => SessionFault::StorageWrite(value),
            CollectorError::Other(detail) => SessionFault::CollectorFailed { detail },
        };
        assert_eq!(report.current, Some(expected));
    }
    let mut report = FaultReporter::new();
    report.publish(SessionFault::StorageWrite(capacity()));
    assert_eq!(
        report.current,
        Some(SessionFault::StorageWrite(capacity()))
    );
}

#[test]
fn fault_notifications_follow_sticky_state_without_consuming_details() {
    let mut report = FaultReporter::new();
    for error in [capacity(), closed()] {
        assert!(report.publish(SessionFault::StorageWrite(error.copy())));
        assert_eq!(
            report.current,
            Some(SessionFault::StorageWrite(error.copy()))
        );
        assert!(!report.publish(SessionFault::StorageWrite(error)));
    }
    assert!(report.publish(SessionFault::DatabaseExited));
    assert!(!report.publish(SessionFault::StorageWrite(capacity())));
    assert!(!report.publish(SessionFault::CollectorFailed {
        detail: "a later fault".into(),
    }));
    assert_eq!(report.current, Some(SessionFault::DatabaseExited));
}

#[test]
fn faults_tell_their_kind_and_their_task() {
    for (fault, kind, fatal, message) in [
        (
            SessionFault::StorageWrite(capacity()),
            "storage_write",
            false,
            "存储操作失败，暂停采样：full",
        ),
        (
            SessionFault::DatabaseExited,
            "database_exited",
            true,
            "数据库线程意外退出",
        ),
        (
            SessionFault::CollectorFailed {
                detail: "x".into(),
            },
            "collector_failed",
            true,
            "采集协调器失败：x",
        ),
        (
            SessionFault::TaskExited {
                role: TaskRole::Dispatcher(12),
                detail: "y".into(),
            },
            "task_exited",
            true,
            "节点 12 dispatcher 意外退出：y",
        ),
        (
            SessionFault::TaskFailed {
                cancelled: true,
                role: TaskRole::FetchCoordinator,
                detail: "z".into(),
            },
            "task_failed",
            true,
            "全局 metadata 采集协调器 意外取消：z",
        ),
        (
            SessionFault::TaskFailed {
                cancelled: false,
                role: TaskRole::SampleCollector(0),
                detail: "z".into(),
            },
            "task_failed",
            true,
            "节点 0 sample collector panic：z",
        ),
    ] {
        assert_eq!(fault.kind(), kind);
        assert_eq!(fault.fatal(), fatal);
        assert_eq!(fault.message(), message);
        assert!(fault.copy().same(&fault));
    }
    assert_eq!(TaskRole::Snapshot(3).node(), 3);
    assert_eq!(TaskRole::CatalogMaintenance.title(), "历史元数据回填");
}

#[test]
fn tasks_that_end_by_themselves_are_faults_only_while_the_session_runs() {
    for closing in [false, true] {
        for (role, end) in [
            (TaskRole::Dispatcher(0), TaskEnd::Dispatcher(None)),
            (TaskRole::Snapshot(0), TaskEnd::Snapshot(None)),
            (TaskRole::SampleCollector(0), TaskEnd::Collector(None)),
            (TaskRole::FetchCoordinator, TaskEnd::Fetch(Ok(()))),
        ] {
            let mut report = FaultReporter::new();
            let mut log = FaultLog::new();
            accept_task(&mut report, &mut log, role, end, closing);
            assert_eq!(report.current.is_some(), !closing);
            assert_eq!(log.take().len(), usize::from(!closing));
        }
    }
    // Samples are not missed once the store failed.
    let mut report = FaultReporter::new();
    let mut log = FaultLog::new();
    report.publish(SessionFault::StorageWrite(capacity()));
    accept_task(
        &mut report,
        &mut log,
        TaskRole::SampleCollector(1),
        TaskEnd::Collector(None),
        false,
    );
    assert_eq!(
        report.current,
        Some(SessionFault::StorageWrite(capacity()))
    );
    assert!(log.take().is_empty());
    // The errors of the collector are published, and not told a second time.
    accept_task(
        &mut report,
        &mut log,
        TaskRole::FetchCoordinator,
        TaskEnd::Fetch(Err(vec![
            CollectorError::Storage(closed()),
            CollectorError::Other("worker".into()),
        ])),
        true,
    );
    assert_eq!(
        report.current,
        Some(SessionFault::CollectorFailed {
            detail: "worker".into()
        })
    );
    assert!(log.take().is_empty());
    accept_task(
        &mut report,
        &mut log,
        TaskRole::Snapshot(2),
        TaskEnd::Failed {
            cancelled: false,
            detail: "boom".into(),
        },
        true,
    );
    assert_eq!(log.take(), vec!["节点 2 snapshot panic：boom".to_string()]);
}

#[test]
fn nodes_and_tasks_start_once() {
    let mut roster = Roster::new();
    assert_eq!(roster.start_fetch(), Err(StorageKind::Conflict));
    assert_eq!(roster.add_node(7), Ok(0));
    assert_eq!(roster.add_node(8), Ok(1));
    assert_eq!(roster.add_node(7), Err(StorageKind::Conflict));
    assert!(!roster.fetching());
    assert_eq!(roster.start_fetch(), Ok(()));
    assert!(roster.fetching());
    assert_eq!(roster.start_fetch(), Err(StorageKind::Conflict));
    assert_eq!(roster.can_sample(2), Err(StorageKind::Invalid));
    assert_eq!(roster.can_sample(1), Ok(()));
    roster.start_sampling(1);
    assert_eq!(roster.can_sample(1), Err(StorageKind::Conflict));
    assert_eq!(
        roster.roles,
        vec![
            TaskRole::Dispatcher(0),
            TaskRole::Snapshot(0),
            TaskRole::Dispatcher(1),
            TaskRole::Snapshot(1),
            TaskRole::FetchCoordinator,
            TaskRole::SampleCollector(1),
        ]
    );
}

#[test]
fn the_close_goes_through_all_stages_in_order() {
    let mut stage = ShutdownStage::NotStarted;
    let mut names = vec![stage.name()];
    while stage != ShutdownStage::Closed {
        stage = stage.enter_next(2);
        if stage != ShutdownStage::Closed {
            names.push(stage.name());
        }
    }
    assert_eq!(
        names,
        vec![
            "尚未开始",
            "回收采集协调器",
            "停止节点采样",
            "关闭节点",
            "回收节点任务",
            "保存节点 0 状态",
            "保存节点 1 状态",
            "关闭数据库（读取最终统计）",
            "关闭数据库",
        ]
    );
    assert!(ShutdownStage::ReclaimCollector.waits(true, 0));
    assert!(!ShutdownStage::ReclaimCollector.waits(false, 9));
    assert!(ShutdownStage::ReclaimNodes.waits(false, 1));
    assert!(!ShutdownStage::CloseNodes.waits(true, 9));
    assert!(!tells_of_sampling(NodeError::DispatcherClosed));
    assert!(tells_of_sampling(NodeError::ShuttingDown));
    assert!(!tells_of_closing(NodeError::ShuttingDown));
    assert!(tells_of_closing(NodeError::Other));
}

#[test]
fn an_overdue_close_tells_all_that_was_observed() {
    let mut log = FaultLog::new();
    let mut report = FaultReporter::new();
    log.push("first".into());
    note_saved_node(
        &mut log,
        None,
        Some("flush".into()),
        None,
        Some("samples".into()),
    );
    report.publish(SessionFault::DatabaseExited);
    assert_eq!(
        overdue_result(&mut log, &report, ShutdownStage::ReclaimNodes),
        vec![
            "first",
            "flush",
            "samples",
            "数据库线程意外退出",
            "持久化关闭超过 30 秒（阶段：回收节点任务）；未确认的结果可能尚未落盘",
        ]
    );
    assert_eq!(shutdown_result(&mut log), Ok(()));
    note_standing_fault(&mut log, &report);
    assert_eq!(
        shutdown_result(&mut log),
        Err(vec!["数据库线程意外退出".to_string()])
    );
}

#[test]
fn only_fatal_faults_and_lost_tasks_end_the_run() {
    let (mut run, running) = Run::begin(StartEnd::Started);
    assert!(running);
    assert_eq!(
        run.handle(RunEvent::Fault(SessionFault::StorageWrite(capacity()))),
        RunNext::Continue
    );
    assert_eq!(run.handle(RunEvent::Tick), RunNext::Report);
    assert_eq!(run.handle(RunEvent::Shutdown), RunNext::Close);
    assert_eq!(run.end(Ok(())), Ok(()));

    let (mut run, _) = Run::begin(StartEnd::Started);
    assert_eq!(
        run.handle(RunEvent::Fault(SessionFault::DatabaseExited)),
        RunNext::Close
    );
    assert_eq!(
        run.end(Err(vec!["cleanup".into()])),
        Err(vec!["数据库线程意外退出".to_string(), "cleanup".to_string()])
    );

    let (mut run, _) = Run::begin(StartEnd::Started);
    assert_eq!(
        run.handle(RunEvent::BootstrapEnded("gone".into())),
        RunNext::Close
    );
    assert_eq!(
        run.end(Ok(())),
        Err(vec!["引导任务意外结束：gone".to_string()])
    );

    let (run, running) = Run::begin(StartEnd::Failed("port".into()));
    assert!(!running);
    assert_eq!(run.end(Ok(())), Err(vec!["port".to_string()]));
    let (run, running) = Run::begin(StartEnd::Interrupted);
    assert!(!running);
    assert_eq!(run.end(Ok(())), Ok(()));
}

#[test]
fn a_collector_that_failed_without_errors_is_no_fault() {
    for closing in [false, true] {
        let mut report = FaultReporter::new();
        let mut log = FaultLog::new();
        accept_task(
            &mut report,
            &mut log,
            TaskRole::FetchCoordinator,
            TaskEnd::Fetch(Err(vec![])),
            closing,
        );
        assert!(report.current.is_none());
        assert!(log.take().is_empty());
    }
    let mut report = FaultReporter::new();
    let mut log = FaultLog::new();
    accept_task(
        &mut report,
        &mut log,
        TaskRole::FetchCoordinator,
        TaskEnd::Fetch(Ok(())),
        false,
    );
    assert_eq!(
        report.current,
        Some(SessionFault::TaskExited {
            role: TaskRole::FetchCoordinator,
            detail: "采集协调器提前结束".into(),
        })
    );
}

#[test]
fn a_task_that_ended_leaves_the_roster() {
    let mut roster = Roster::new();
    assert_eq!(roster.add_node(7), Ok(0));
    assert_eq!(roster.start_fetch(), Ok(()));
    roster.ended(TaskRole::SampleCollector(0));
    assert_eq!(roster.roles.len(), 3);
    roster.ended(TaskRole::Dispatcher(0));
    assert_eq!(
        roster.roles,
        vec![TaskRole::Snapshot(0), TaskRole::FetchCoordinator]
    );
    assert_eq!(roster.start_fetch(), Err(StorageKind::Conflict));
    roster.ended(TaskRole::FetchCoordinator);
    assert!(!roster.fetching());
    assert_eq!(roster.nodes.len(), 1);
    assert_eq!(roster.start_fetch(), Ok(()));
    assert_eq!(
        roster.roles,
        vec![TaskRole::Snapshot(0), TaskRole::FetchCoordinator]
    );
}

#[test]
fn contacts_are_saved_where_they_changed_and_remembered_once_saved() {
    let mut remembered: Vec<u8> = vec![];
    let mut stored: Vec<Vec<u8>> = vec![];
    for (contacts, written, goes_on) in [
        (vec![], true, true),
        (vec![1], true, true),
        (vec![1], false, true),
        (vec![2], false, false),
    ] {
        let changed = contacts != remembered;
        let action = match snapshot_step(SnapshotEvent::Read { changed }) {
            SnapshotAction::Save => {
                if written {
                    stored.push(contacts.clone());
                }
                snapshot_step(SnapshotEvent::Saved { written })
            }
            other => other,
        };
        if action == SnapshotAction::Remember {
            remembered = contacts;
        }
        assert_eq!(action != SnapshotAction::End { failed: true }, goes_on);
    }
    assert_eq!(remembered, vec![1]);
    assert_eq!(stored, vec![vec![1]]);
    assert_eq!(
        snapshot_step(SnapshotEvent::Stopped),
        SnapshotAction::End { failed: false }
    );
    assert_eq!(
        snapshot_step(SnapshotEvent::Unreadable),
        SnapshotAction::End { failed: true }
    );
}

#[test]
fn errors_of_the_collector_are_kept_whatever_fault_stands() {
    let mut report = FaultReporter::new();
    let mut faults = FaultLog::new();
    let full = CollectorError::Storage(capacity());
    let clock = CollectorError::Other("clock".into());
    assert!(report.record_collector_error(&mut faults, &full));
    assert!(!report.record_collector_error(&mut faults, &full));
    assert!(report.record_collector_error(&mut faults, &clock));
    assert!(!report.record_collector_error(&mut faults, &full));
    assert_eq!(faults.take(), ["full", "full", "clock", "full"]);
    assert_eq!(
        report.current,
        Some(SessionFault::CollectorFailed {
            detail: "clock".into()
        })
    );
}
