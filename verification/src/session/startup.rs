//! What may be started in a session.

use crate::session::faults::{StorageKind, TaskRole};
use vstd::prelude::*;

verus! {

/// A node of a session: the number of its identity, and whether its samples are taken.
#[derive(Clone, Copy, Debug, PartialEq, Eq, Structural)]
pub struct NodeState {
    pub identity: i64,
    pub collecting: bool,
}

/// Whether some node has an identity.
pub open spec fn has_identity(nodes: Seq<NodeState>, identity: i64) -> bool {
    exists|i: int| 0 <= i < nodes.len() && (#[trigger] nodes[i]).identity == identity
}

/// Whether the collector runs.
pub open spec fn is_fetching(roles: Seq<TaskRole>) -> bool {
    roles.contains(TaskRole::FetchCoordinator)
}

/// The place of the first task with a role, and the number of tasks where there is none.
pub open spec fn role_place(roles: Seq<TaskRole>, role: TaskRole) -> int
    decreases roles.len(),
{
    if roles.len() == 0 || roles[0] == role {
        0
    } else {
        1 + role_place(roles.drop_first(), role)
    }
}

/// The tasks that are left once one with a role ended.
pub open spec fn without(roles: Seq<TaskRole>, role: TaskRole) -> Seq<TaskRole> {
    if roles.contains(role) {
        roles.remove(role_place(roles, role))
    } else {
        roles
    }
}

/// The place of a role is that of its first task.
proof fn lemma_role_place(roles: Seq<TaskRole>, role: TaskRole, at: int)
    requires
        0 <= at <= roles.len(),
        forall|k: int| 0 <= k < at ==> roles[k] != role,
        at < roles.len() ==> roles[at] == role,
    ensures
        role_place(roles, role) == at,
    decreases roles.len(),
{
    if at > 0 {
        assert(roles[0] != role);
        let rest = roles.drop_first();
        assert forall|k: int| 0 <= k < at - 1 implies rest[k] != role by {
            assert(rest[k] == roles[k + 1]);
        }
        lemma_role_place(rest, role, at - 1);
    }
}

/// The nodes and the tasks of a session.
#[derive(Debug)]
pub struct Roster {
    pub nodes: Vec<NodeState>,
    pub roles: Vec<TaskRole>,
}

impl Roster {
    /// Whether no two nodes have one identity, every task of a node has one, and there is at most
    /// one collector.
    pub open spec fn well_formed(self) -> bool {
        &&& forall|i: int, j: int|
            0 <= i < j < self.nodes@.len() ==> (#[trigger] self.nodes@[i]).identity != (
            #[trigger] self.nodes@[j]).identity
        &&& forall|i: int|
            0 <= i < self.roles@.len() ==> match #[trigger] self.roles@[i] {
                TaskRole::Dispatcher(node) => node < self.nodes@.len(),
                TaskRole::Snapshot(node) => node < self.nodes@.len(),
                TaskRole::SampleCollector(node) => node < self.nodes@.len(),
                _ => true,
            }
        &&& forall|i: int, j: int|
            0 <= i < j < self.roles@.len() ==> !(#[trigger] self.roles@[i]
                == TaskRole::FetchCoordinator && #[trigger] self.roles@[j]
                == TaskRole::FetchCoordinator)
    }

    /// No nodes.
    pub fn new() -> (roster: Roster)
        ensures
            roster.nodes@.len() == 0,
            roster.roles@.len() == 0,
            roster.well_formed(),
    {
        Roster { nodes: Vec::new(), roles: Vec::new() }
    }

    /// Whether the collector runs.
    pub fn fetching(&self) -> (fetching: bool)
        ensures
            fetching == is_fetching(self.roles@),
    {
        for i in 0..self.roles.len()
            invariant
                forall|k: int| 0 <= k < i ==> self.roles@[k] != TaskRole::FetchCoordinator,
        {
            if self.roles[i] == TaskRole::FetchCoordinator {
                return true;
            }
        }
        false
    }

    /// Adds a node with its two tasks, unless there is one with its identity.
    pub fn add_node(&mut self, identity: i64) -> (result: Result<usize, StorageKind>)
        requires
            old(self).well_formed(),
        ensures
            final(self).well_formed(),
            has_identity(old(self).nodes@, identity) ==> result == Err::<usize, StorageKind>(
                StorageKind::Conflict,
            ) && final(self).nodes@ == old(self).nodes@ && final(self).roles@ == old(self).roles@,
            !has_identity(old(self).nodes@, identity) ==> {
                &&& result == Ok::<usize, StorageKind>(old(self).nodes.len())
                &&& final(self).nodes@ == old(self).nodes@.push(
                    NodeState { identity, collecting: false },
                )
                &&& final(self).roles@ == old(self).roles@.push(
                    TaskRole::Dispatcher(old(self).nodes.len()),
                ).push(TaskRole::Snapshot(old(self).nodes.len()))
            },
    {
        let ghost nodes = self.nodes@;
        let ghost roles = self.roles@;
        let index: usize = self.nodes.len();
        for i in 0..index
            invariant
                self.nodes@ == nodes,
                self.roles@ == roles,
                nodes == old(self).nodes@,
                roles == old(self).roles@,
                self.well_formed(),
                index == nodes.len(),
                forall|k: int| 0 <= k < i ==> (#[trigger] nodes[k]).identity != identity,
        {
            if self.nodes[i].identity == identity {
                return Err(StorageKind::Conflict);
            }
        }
        self.nodes.push(NodeState { identity, collecting: false });
        self.roles.push(TaskRole::Dispatcher(index));
        self.roles.push(TaskRole::Snapshot(index));
        proof {
            assert forall|i: int, j: int| 0 <= i < j < self.nodes@.len() implies (
            #[trigger] self.nodes@[i]).identity != (#[trigger] self.nodes@[j]).identity by {
                assert(self.nodes@[i] == nodes[i]);
                if j < nodes.len() {
                    assert(self.nodes@[j] == nodes[j]);
                }
            }
            assert forall|i: int| 0 <= i < self.roles@.len() implies match #[trigger] self.roles@[i] {
                TaskRole::Dispatcher(node) => node < self.nodes@.len(),
                TaskRole::Snapshot(node) => node < self.nodes@.len(),
                TaskRole::SampleCollector(node) => node < self.nodes@.len(),
                _ => true,
            } by {
                if i < roles.len() {
                    assert(self.roles@[i] == roles[i]);
                }
            }
        }
        Ok(index)
    }

    /// Starts the collector: once, and not without a node.
    pub fn start_fetch(&mut self) -> (result: Result<(), StorageKind>)
        requires
            old(self).well_formed(),
        ensures
            final(self).well_formed(),
            final(self).nodes@ == old(self).nodes@,
            old(self).nodes@.len() == 0 || is_fetching(old(self).roles@) ==> result == Err::<
                (),
                StorageKind,
            >(StorageKind::Conflict) && final(self).roles@ == old(self).roles@,
            !(old(self).nodes@.len() == 0 || is_fetching(old(self).roles@)) ==> result is Ok
                && final(self).roles@ == old(self).roles@.push(TaskRole::FetchCoordinator),
    {
        if self.nodes.len() == 0 || self.fetching() {
            return Err(StorageKind::Conflict);
        }
        let ghost roles = self.roles@;
        self.roles.push(TaskRole::FetchCoordinator);
        proof {
            assert forall|i: int| 0 <= i < self.roles@.len() implies match #[trigger] self.roles@[i] {
                TaskRole::Dispatcher(node) => node < self.nodes@.len(),
                TaskRole::Snapshot(node) => node < self.nodes@.len(),
                TaskRole::SampleCollector(node) => node < self.nodes@.len(),
                _ => true,
            } by {
                if i < roles.len() {
                    assert(self.roles@[i] == roles[i]);
                }
            }
        }
        Ok(())
    }

    /// Whether the samples of a node can be taken: not of one that there is not, nor twice.
    pub fn can_sample(&self, node: usize) -> (result: Result<(), StorageKind>)
        ensures
            node >= self.nodes@.len() ==> result == Err::<(), StorageKind>(StorageKind::Invalid),
            node < self.nodes@.len() && self.nodes@[node as int].collecting ==> result == Err::<
                (),
                StorageKind,
            >(StorageKind::Conflict),
            node < self.nodes@.len() && !self.nodes@[node as int].collecting ==> result is Ok,
    {
        if node >= self.nodes.len() {
            return Err(StorageKind::Invalid);
        }
        if self.nodes[node].collecting {
            return Err(StorageKind::Conflict);
        }
        Ok(())
    }

    /// Notes that the samples of a node are taken.
    pub fn start_sampling(&mut self, node: usize)
        requires
            old(self).well_formed(),
            node < old(self).nodes@.len(),
        ensures
            final(self).well_formed(),
            final(self).nodes@ == old(self).nodes@.update(
                node as int,
                NodeState { collecting: true, ..old(self).nodes@[node as int] },
            ),
            final(self).roles@ == old(self).roles@.push(TaskRole::SampleCollector(node)),
    {
        let ghost nodes = self.nodes@;
        let ghost roles = self.roles@;
        let state = self.nodes[node];
        self.nodes.set(node, NodeState { identity: state.identity, collecting: true });
        self.roles.push(TaskRole::SampleCollector(node));
        proof {
            assert forall|i: int, j: int| 0 <= i < j < self.nodes@.len() implies (
            #[trigger] self.nodes@[i]).identity != (#[trigger] self.nodes@[j]).identity by {
                assert(self.nodes@[i].identity == nodes[i].identity);
                assert(self.nodes@[j].identity == nodes[j].identity);
            }
            assert forall|i: int| 0 <= i < self.roles@.len() implies match #[trigger] self.roles@[i] {
                TaskRole::Dispatcher(node) => node < self.nodes@.len(),
                TaskRole::Snapshot(node) => node < self.nodes@.len(),
                TaskRole::SampleCollector(node) => node < self.nodes@.len(),
                _ => true,
            } by {
                if i < roles.len() {
                    assert(self.roles@[i] == roles[i]);
                }
            }
        }
    }

    /// Takes note that a task ended. Another collector can be started once the one there was ended.
    pub fn ended(&mut self, role: TaskRole)
        requires
            old(self).well_formed(),
        ensures
            final(self).well_formed(),
            final(self).nodes@ == old(self).nodes@,
            final(self).roles@ == without(old(self).roles@, role),
            role == TaskRole::FetchCoordinator ==> !is_fetching(final(self).roles@),
    {
        let ghost roles = self.roles@;
        let count: usize = self.roles.len();
        let mut at: usize = 0;
        while at < count && self.roles[at] != role
            invariant
                at <= count,
                count == roles.len(),
                self.roles@ == roles,
                forall|k: int| 0 <= k < at ==> roles[k] != role,
            decreases count - at,
        {
            at = at + 1;
        }
        proof {
            lemma_role_place(roles, role, at as int);
        }
        if at < count {
            assert(roles.contains(role)) by {
                assert(roles[at as int] == role);
            }
            self.roles.remove(at);
        }
        proof {
            assert forall|i: int| 0 <= i < self.roles@.len() implies self.roles@[i] == roles[if i
                < at {
                i
            } else {
                i + 1
            }] by {}
        }
    }
}

/// A task that ends is taken from the list once, where it stands first, and the others keep their
/// order.
pub proof fn lemma_without(roles: Seq<TaskRole>, role: TaskRole)
    ensures
        !roles.contains(role) ==> without(roles, role) == roles,
        roles.contains(role) ==> exists|at: int|
            {
                &&& 0 <= at < roles.len()
                &&& #[trigger] roles[at] == role
                &&& forall|i: int| 0 <= i < at ==> #[trigger] roles[i] != role
                &&& without(roles, role) == roles.take(at) + roles.skip(at + 1)
            },
        is_fetching(roles) <==> exists|i: int|
            0 <= i < roles.len() && #[trigger] roles[i] is FetchCoordinator,
{
    if roles.contains(role) {
        lemma_first_place(roles, role);
        let at = role_place(roles, role);
        assert(roles.remove(at) =~= roles.take(at) + roles.skip(at + 1));
        assert(roles[at] == role);
    }
    if is_fetching(roles) {
        let i = choose|i: int| 0 <= i < roles.len() && roles[i] == TaskRole::FetchCoordinator;
        assert(roles[i] is FetchCoordinator);
    }
}

proof fn lemma_first_place(roles: Seq<TaskRole>, role: TaskRole)
    requires
        roles.contains(role),
    ensures
        0 <= role_place(roles, role) < roles.len(),
        roles[role_place(roles, role)] == role,
        forall|i: int| 0 <= i < role_place(roles, role) ==> #[trigger] roles[i] != role,
    decreases roles.len(),
{
    if roles[0] != role {
        let rest = roles.drop_first();
        let i = choose|i: int| 0 <= i < roles.len() && roles[i] == role;
        assert(rest[i - 1] == role);
        lemma_first_place(rest, role);
        assert forall|i: int| 0 <= i < role_place(roles, role) implies #[trigger] roles[i] != role by {
            if i > 0 {
                assert(rest[i - 1] == roles[i]);
            }
        }
    }
}

/// An identity is known where a node has it.
pub proof fn lemma_has_identity(nodes: Seq<NodeState>, node: NodeState, identity: i64)
    ensures
        !has_identity(Seq::empty(), identity),
        has_identity(nodes.push(node), identity) <==> has_identity(nodes, identity)
            || node.identity == identity,
{
    let all = nodes.push(node);
    assert(all[nodes.len() as int] == node);
    if has_identity(nodes, identity) {
        let i = choose|i: int| 0 <= i < nodes.len() && (#[trigger] nodes[i]).identity == identity;
        assert(all[i].identity == identity);
    }
    if has_identity(all, identity) {
        let i = choose|i: int| 0 <= i < all.len() && (#[trigger] all[i]).identity == identity;
        if i < nodes.len() {
            assert(nodes[i].identity == identity);
        }
    }
}

} // verus!
