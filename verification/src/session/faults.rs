//! The faults of a session, and the one that stands.

use crate::bounded::{decimal, decimal_text};
use crate::metainfo::identity::text_equal;
use vstd::prelude::*;

verus! {

/// The kinds of an error of the store.
#[derive(Clone, Copy, Debug, PartialEq, Eq, Structural)]
pub enum StorageKind {
    Capacity,
    Closed,
    Conflict,
    Io,
    Database,
    Invalid,
}

/// An error of the store, and the text that tells of it.
#[derive(Debug, PartialEq, Eq)]
pub struct StorageError {
    pub kind: StorageKind,
    pub text: String,
}

/// The model of an error of the store.
pub struct StorageModel {
    pub kind: StorageKind,
    pub text: Seq<char>,
}

impl View for StorageError {
    type V = StorageModel;

    open spec fn view(&self) -> StorageModel {
        StorageModel { kind: self.kind, text: self.text@ }
    }
}

impl StorageError {
    /// A copy of the error.
    pub fn copy(&self) -> (copy: StorageError)
        ensures
            copy@ == self@,
    {
        StorageError { kind: self.kind, text: self.text.clone() }
    }
}

/// The task of a session, and the node that it belongs to.
#[derive(Clone, Copy, Debug, PartialEq, Eq, Structural)]
pub enum TaskRole {
    Dispatcher(usize),
    Snapshot(usize),
    SampleCollector(usize),
    FetchCoordinator,
    CatalogMaintenance,
}

impl TaskRole {
    /// Whether the task belongs to a node.
    pub open spec fn has_node(self) -> bool {
        !(self is FetchCoordinator) && !(self is CatalogMaintenance)
    }

    /// The title of a task.
    pub open spec fn title_text(self) -> Seq<char> {
        match self {
            TaskRole::Dispatcher(node) => "节点 "@ + decimal_text(node as int) + " dispatcher"@,
            TaskRole::Snapshot(node) => "节点 "@ + decimal_text(node as int) + " snapshot"@,
            TaskRole::SampleCollector(node) => "节点 "@ + decimal_text(node as int)
                + " sample collector"@,
            TaskRole::FetchCoordinator => "全局 metadata 采集协调器"@,
            TaskRole::CatalogMaintenance => "历史元数据回填"@,
        }
    }

    /// The node of the task.
    pub fn node(self) -> (node: usize)
        requires
            self.has_node(),
        ensures
            self == TaskRole::Dispatcher(node) || self == TaskRole::Snapshot(node) || self
                == TaskRole::SampleCollector(node),
    {
        match self {
            TaskRole::Dispatcher(index) => index,
            TaskRole::Snapshot(index) => index,
            TaskRole::SampleCollector(index) => index,
            _ => 0,
        }
    }

    /// The title of the task.
    pub fn title(self) -> (title: String)
        ensures
            title@ == self.title_text(),
    {
        match self {
            TaskRole::Dispatcher(node) => joined("节点 ", node, " dispatcher"),
            TaskRole::Snapshot(node) => joined("节点 ", node, " snapshot"),
            TaskRole::SampleCollector(node) => joined("节点 ", node, " sample collector"),
            TaskRole::FetchCoordinator => "全局 metadata 采集协调器".to_owned(),
            TaskRole::CatalogMaintenance => "历史元数据回填".to_owned(),
        }
    }
}

/// A number between two texts.
pub(crate) fn joined(before: &str, number: usize, behind: &str) -> (text: String)
    ensures
        text@ == before@ + decimal_text(number as int) + behind@,
{
    let mut text = before.to_owned();
    text.push_str(decimal(number as u64).as_str());
    text.push_str(behind);
    text
}

/// A fault of a session.
#[derive(Debug, PartialEq, Eq)]
pub enum SessionFault {
    /// The store failed. It may recover.
    StorageWrite(StorageError),
    /// The thread of the database is gone.
    DatabaseExited,
    /// The collector failed.
    CollectorFailed { detail: String },
    /// A task ended by itself.
    TaskExited { role: TaskRole, detail: String },
    /// A task was cancelled or panicked.
    TaskFailed { cancelled: bool, role: TaskRole, detail: String },
}

/// The model of a fault.
pub enum FaultModel {
    StorageWrite(StorageModel),
    DatabaseExited,
    CollectorFailed { detail: Seq<char> },
    TaskExited { role: TaskRole, detail: Seq<char> },
    TaskFailed { cancelled: bool, role: TaskRole, detail: Seq<char> },
}

impl View for SessionFault {
    type V = FaultModel;

    open spec fn view(&self) -> FaultModel {
        match *self {
            SessionFault::StorageWrite(error) => FaultModel::StorageWrite(error@),
            SessionFault::DatabaseExited => FaultModel::DatabaseExited,
            SessionFault::CollectorFailed { detail } => FaultModel::CollectorFailed {
                detail: detail@,
            },
            SessionFault::TaskExited { role, detail } => FaultModel::TaskExited {
                role,
                detail: detail@,
            },
            SessionFault::TaskFailed { cancelled, role, detail } => FaultModel::TaskFailed {
                cancelled,
                role,
                detail: detail@,
            },
        }
    }
}

impl FaultModel {
    /// The kind of a fault.
    pub open spec fn kind_text(self) -> Seq<char> {
        match self {
            FaultModel::StorageWrite(_) => "storage_write"@,
            FaultModel::DatabaseExited => "database_exited"@,
            FaultModel::CollectorFailed { .. } => "collector_failed"@,
            FaultModel::TaskExited { .. } => "task_exited"@,
            FaultModel::TaskFailed { .. } => "task_failed"@,
        }
    }

    /// Whether a fault ends the session: all do but those of the store.
    pub open spec fn is_fatal(self) -> bool {
        !(self is StorageWrite)
    }

    /// What is told of a fault.
    pub open spec fn message_text(self) -> Seq<char> {
        match self {
            FaultModel::StorageWrite(error) => "存储操作失败，暂停采样："@ + error.text,
            FaultModel::DatabaseExited => "数据库线程意外退出"@,
            FaultModel::CollectorFailed { detail } => "采集协调器失败："@ + detail,
            FaultModel::TaskExited { role, detail } => role.title_text() + " 意外退出："@ + detail,
            FaultModel::TaskFailed { cancelled, role, detail } => role.title_text() + (
            if cancelled {
                " 意外取消："@
            } else {
                " panic："@
            }) + detail,
        }
    }
}

impl SessionFault {
    /// The kind of the fault.
    pub fn kind(&self) -> (kind: &'static str)
        ensures
            kind@ == self@.kind_text(),
    {
        match self {
            SessionFault::StorageWrite(_) => "storage_write",
            SessionFault::DatabaseExited => "database_exited",
            SessionFault::CollectorFailed { .. } => "collector_failed",
            SessionFault::TaskExited { .. } => "task_exited",
            SessionFault::TaskFailed { .. } => "task_failed",
        }
    }

    /// Whether the fault ends the session.
    pub fn fatal(&self) -> (fatal: bool)
        ensures
            fatal == self@.is_fatal(),
    {
        match self {
            SessionFault::StorageWrite(_) => false,
            _ => true,
        }
    }

    /// What is told of the fault.
    pub fn message(&self) -> (message: String)
        ensures
            message@ == self@.message_text(),
    {
        match self {
            SessionFault::StorageWrite(error) => {
                let mut message = "存储操作失败，暂停采样：".to_owned();
                message.push_str(error.text.as_str());
                message
            },
            SessionFault::DatabaseExited => "数据库线程意外退出".to_owned(),
            SessionFault::CollectorFailed { detail } => {
                let mut message = "采集协调器失败：".to_owned();
                message.push_str(detail.as_str());
                message
            },
            SessionFault::TaskExited { role, detail } => {
                let mut message = role.title();
                message.push_str(" 意外退出：");
                message.push_str(detail.as_str());
                message
            },
            SessionFault::TaskFailed { cancelled, role, detail } => {
                let mut message = role.title();
                message.push_str(
                    if *cancelled {
                        " 意外取消："
                    } else {
                        " panic："
                    },
                );
                message.push_str(detail.as_str());
                message
            },
        }
    }

    /// Whether both faults are the same.
    pub fn same(&self, other: &SessionFault) -> (same: bool)
        ensures
            same == (self@ == other@),
    {
        match (self, other) {
            (SessionFault::StorageWrite(a), SessionFault::StorageWrite(b)) => a.kind == b.kind
                && text_equal(a.text.as_str(), b.text.as_str()),
            (SessionFault::DatabaseExited, SessionFault::DatabaseExited) => true,
            (
                SessionFault::CollectorFailed { detail: a },
                SessionFault::CollectorFailed { detail: b },
            ) => text_equal(a.as_str(), b.as_str()),
            (
                SessionFault::TaskExited { role: a, detail: b },
                SessionFault::TaskExited { role: c, detail: d },
            ) => *a == *c && text_equal(b.as_str(), d.as_str()),
            (
                SessionFault::TaskFailed { cancelled: a, role: b, detail: c },
                SessionFault::TaskFailed { cancelled: d, role: e, detail: f },
            ) => *a == *d && *b == *e && text_equal(c.as_str(), f.as_str()),
            _ => false,
        }
    }

    /// A copy of the fault.
    pub fn copy(&self) -> (copy: SessionFault)
        ensures
            copy@ == self@,
    {
        match self {
            SessionFault::StorageWrite(error) => SessionFault::StorageWrite(error.copy()),
            SessionFault::DatabaseExited => SessionFault::DatabaseExited,
            SessionFault::CollectorFailed { detail } => SessionFault::CollectorFailed {
                detail: detail.clone(),
            },
            SessionFault::TaskExited { role, detail } => SessionFault::TaskExited {
                role: *role,
                detail: detail.clone(),
            },
            SessionFault::TaskFailed { cancelled, role, detail } => SessionFault::TaskFailed {
                cancelled: *cancelled,
                role: *role,
                detail: detail.clone(),
            },
        }
    }
}

/// An error of the collector.
#[derive(Debug, PartialEq, Eq)]
pub enum CollectorError {
    /// Of the store.
    Storage(StorageError),
    /// Of the clock, a worker, a lookup or the configuration, with the text that tells of it.
    Other(String),
}

/// The fault that an error of the collector is.
pub open spec fn fault_of(error: CollectorError) -> FaultModel {
    match error {
        CollectorError::Storage(error) => FaultModel::StorageWrite(error@),
        CollectorError::Other(text) => FaultModel::CollectorFailed { detail: text@ },
    }
}

/// The text that tells of an error of the collector.
pub open spec fn text_of(error: CollectorError) -> Seq<char> {
    match error {
        CollectorError::Storage(error) => error.text@,
        CollectorError::Other(text) => text@,
    }
}

/// The fault that an error of the collector is.
pub fn classify_collector_error(error: &CollectorError) -> (fault: SessionFault)
    ensures
        fault@ == fault_of(*error),
{
    match error {
        CollectorError::Storage(error) => SessionFault::StorageWrite(error.copy()),
        CollectorError::Other(text) => SessionFault::CollectorFailed { detail: text.clone() },
    }
}

/// The texts of all errors of a session, in the order in which they came.
#[derive(Debug)]
pub struct FaultLog {
    pub texts: Vec<String>,
}

/// The texts of errors.
pub open spec fn texts_of(texts: Seq<String>) -> Seq<Seq<char>> {
    Seq::new(texts.len(), |i: int| texts[i]@)
}

impl View for FaultLog {
    type V = Seq<Seq<char>>;

    open spec fn view(&self) -> Seq<Seq<char>> {
        texts_of(self.texts@)
    }
}

impl FaultLog {
    /// No errors.
    pub fn new() -> (log: FaultLog)
        ensures
            log@ == Seq::<Seq<char>>::empty(),
    {
        let log = FaultLog { texts: Vec::new() };
        assert(log@ =~= Seq::<Seq<char>>::empty());
        log
    }

    /// Adds the text of an error.
    pub fn push(&mut self, error: String)
        ensures
            final(self)@ == old(self)@.push(error@),
    {
        self.texts.push(error);
        assert(self@ =~= old(self)@.push(error@));
    }

    /// Hands the texts out.
    pub fn take(&mut self) -> (texts: Vec<String>)
        ensures
            texts_of(texts@) == old(self)@,
            final(self)@ == Seq::<Seq<char>>::empty(),
    {
        let mut texts: Vec<String> = Vec::new();
        std::mem::swap(&mut texts, &mut self.texts);
        assert(self@ =~= Seq::<Seq<char>>::empty());
        texts
    }
}

/// The fault that stands.
#[derive(Debug)]
pub struct FaultReporter {
    pub current: Option<SessionFault>,
}

impl View for FaultReporter {
    type V = Option<FaultModel>;

    open spec fn view(&self) -> Option<FaultModel> {
        match self.current {
            Some(fault) => Some(fault@),
            None => None,
        }
    }
}

/// Whether a fault replaces the one that stands: not where that is the same or ends the session.
pub open spec fn replaces(standing: Option<FaultModel>, fault: FaultModel) -> bool {
    standing != Some(fault) && !(standing is Some && standing->0.is_fatal())
}

/// The fault that stands after another one.
pub open spec fn published(standing: Option<FaultModel>, fault: FaultModel) -> Option<FaultModel> {
    if replaces(standing, fault) {
        Some(fault)
    } else {
        standing
    }
}

/// The fault that stands after some others.
pub open spec fn published_all(
    standing: Option<FaultModel>,
    faults: Seq<FaultModel>,
) -> Option<FaultModel>
    decreases faults.len(),
{
    if faults.len() == 0 {
        standing
    } else {
        published(published_all(standing, faults.drop_last()), faults.last())
    }
}

impl FaultReporter {
    /// No fault.
    pub fn new() -> (reporter: FaultReporter)
        ensures
            reporter@ is None,
    {
        FaultReporter { current: None }
    }

    /// Publishes a fault, and says whether the collector is told to pause.
    pub fn publish(&mut self, fault: SessionFault) -> (changed: bool)
        ensures
            changed == replaces(old(self)@, fault@),
            final(self)@ == published(old(self)@, fault@),
    {
        match &self.current {
            Some(standing) => {
                if standing.same(&fault) || standing.fatal() {
                    return false;
                }
            },
            None => {},
        }
        self.current = Some(fault);
        true
    }

    /// Keeps the text of an error of the collector, whatever fault stands, and then publishes the
    /// fault that it is. Says whether the collector is told to pause.
    pub fn record_collector_error(&mut self, log: &mut FaultLog, error: &CollectorError) -> (changed:
        bool)
        ensures
            final(log)@ == old(log)@.push(text_of(*error)),
            final(self)@ == published(old(self)@, fault_of(*error)),
            changed == replaces(old(self)@, fault_of(*error)),
    {
        match error {
            CollectorError::Storage(error) => log.push(error.text.clone()),
            CollectorError::Other(text) => log.push(text.clone()),
        }
        self.publish(classify_collector_error(error))
    }
}

/// A fault that ends the session stays, whatever comes after it.
pub proof fn lemma_fatal_stays(standing: FaultModel, faults: Seq<FaultModel>)
    requires
        standing.is_fatal(),
    ensures
        published_all(Some(standing), faults) == Some(standing),
    decreases faults.len(),
{
    if faults.len() > 0 {
        lemma_fatal_stays(standing, faults.drop_last());
    }
}

/// A fault that is published again tells nobody.
pub proof fn lemma_repeated_fault(standing: Option<FaultModel>, fault: FaultModel)
    ensures
        !replaces(published(standing, fault), fault),
{
}

/// A task is named by its node, where it has one, and by its part.
pub proof fn lemma_titles(node: usize)
    ensures
        TaskRole::Dispatcher(node).title_text() == "节点 "@ + decimal_text(node as int)
            + " dispatcher"@,
        TaskRole::Snapshot(node).title_text() == "节点 "@ + decimal_text(node as int)
            + " snapshot"@,
        TaskRole::SampleCollector(node).title_text() == "节点 "@ + decimal_text(node as int)
            + " sample collector"@,
        TaskRole::FetchCoordinator.title_text() == "全局 metadata 采集协调器"@,
        TaskRole::CatalogMaintenance.title_text() == "历史元数据回填"@,
        TaskRole::Dispatcher(node).has_node(),
        TaskRole::Snapshot(node).has_node(),
        TaskRole::SampleCollector(node).has_node(),
        !TaskRole::FetchCoordinator.has_node(),
        !TaskRole::CatalogMaintenance.has_node(),
{
}

/// Every fault but a failed write is fatal. A fault tells what happened, to which task, and what was
/// said of it.
pub proof fn lemma_fault_texts(
    error: StorageModel,
    role: TaskRole,
    detail: Seq<char>,
    cancelled: bool,
)
    ensures
        !FaultModel::StorageWrite(error).is_fatal(),
        FaultModel::DatabaseExited.is_fatal(),
        (FaultModel::CollectorFailed { detail }).is_fatal(),
        (FaultModel::TaskExited { role, detail }).is_fatal(),
        (FaultModel::TaskFailed { cancelled, role, detail }).is_fatal(),
        FaultModel::StorageWrite(error).kind_text() == "storage_write"@,
        FaultModel::DatabaseExited.kind_text() == "database_exited"@,
        (FaultModel::CollectorFailed { detail }).kind_text() == "collector_failed"@,
        (FaultModel::TaskExited { role, detail }).kind_text() == "task_exited"@,
        (FaultModel::TaskFailed { cancelled, role, detail }).kind_text() == "task_failed"@,
        FaultModel::StorageWrite(error).message_text() == "存储操作失败，暂停采样："@
            + error.text,
        FaultModel::DatabaseExited.message_text() == "数据库线程意外退出"@,
        (FaultModel::CollectorFailed { detail }).message_text() == "采集协调器失败："@ + detail,
        (FaultModel::TaskExited { role, detail }).message_text() == role.title_text()
            + " 意外退出："@ + detail,
        (FaultModel::TaskFailed { cancelled: true, role, detail }).message_text()
            == role.title_text() + " 意外取消："@ + detail,
        (FaultModel::TaskFailed { cancelled: false, role, detail }).message_text()
            == role.title_text() + " panic："@ + detail,
{
}

/// The model of a fault holds each of its fields.
pub proof fn lemma_fault_view(fault: SessionFault)
    ensures
        match fault {
            SessionFault::StorageWrite(error) => fault@ matches FaultModel::StorageWrite(model)
                && model.kind == error.kind && model.text == error.text@,
            SessionFault::DatabaseExited => fault@ is DatabaseExited,
            SessionFault::CollectorFailed { detail } => fault@ == (FaultModel::CollectorFailed {
                detail: detail@,
            }),
            SessionFault::TaskExited { role, detail } => fault@ == (FaultModel::TaskExited {
                role,
                detail: detail@,
            }),
            SessionFault::TaskFailed { cancelled, role, detail } => fault@
                == (FaultModel::TaskFailed { cancelled, role, detail: detail@ }),
        },
{
}

/// An error of the collector that comes from the store is a failed write, and any other fails the
/// collector, each under its own text.
pub proof fn lemma_collector_fault(error: CollectorError)
    ensures
        match error {
            CollectorError::Storage(inner) => {
                &&& fault_of(error) matches FaultModel::StorageWrite(model)
                &&& model.kind == inner.kind && model.text == inner.text@
                &&& text_of(error) == inner.text@
            },
            CollectorError::Other(text) => {
                &&& fault_of(error) == (FaultModel::CollectorFailed { detail: text@ })
                &&& text_of(error) == text@
            },
        },
{
}

/// A new fault takes the place of none or of a failed write, never of one that is fatal. Faults are
/// published one after the other.
pub proof fn lemma_published(standing: Option<FaultModel>, faults: Seq<FaultModel>, fault: FaultModel)
    ensures
        standing is None ==> published(standing, fault) == Some(fault) && replaces(standing, fault),
        standing matches Some(FaultModel::StorageWrite(_)) ==> published(standing, fault) == Some(
            fault,
        ),
        standing is Some && !(standing->0 is StorageWrite) ==> published(standing, fault)
            == standing && !replaces(standing, fault),
        standing == Some(fault) ==> !replaces(standing, fault),
        published_all(standing, Seq::empty()) == standing,
        published_all(standing, faults.push(fault)) == published(
            published_all(standing, faults),
            fault,
        ),
{
    assert(faults.push(fault).drop_last() =~= faults);
}

/// Texts are kept one by one.
pub proof fn lemma_texts(texts: Seq<String>, log: FaultLog, reporter: FaultReporter)
    ensures
        texts_of(texts).len() == texts.len(),
        forall|i: int| 0 <= i < texts.len() ==> texts_of(texts)[i] == (#[trigger] texts[i])@,
        log@.len() == log.texts@.len(),
        forall|i: int| 0 <= i < log.texts@.len() ==> log@[i] == (#[trigger] log.texts@[i])@,
        reporter@ is Some <==> reporter.current is Some,
        reporter.current matches Some(fault) ==> reporter@ == Some(fault@),
{
}

} // verus!
