//! When the contacts of a node are saved.

use vstd::prelude::*;

verus! {

/// What the task that saves the contacts of a node learns.
#[derive(Clone, Copy, Debug, PartialEq, Eq, Structural)]
pub enum SnapshotEvent {
    /// The session wants no more snapshots.
    Stopped,
    /// The contacts cannot be read.
    Unreadable,
    /// The contacts were read: whether they differ from those remembered.
    Read { changed: bool },
    /// The store took the contacts, or did not.
    Saved { written: bool },
}

/// What the task does.
#[derive(Clone, Copy, Debug, PartialEq, Eq, Structural)]
pub enum SnapshotAction {
    /// Waits for the next minute.
    Wait,
    /// Hands the contacts to the store.
    Save,
    /// Remembers the contacts that were saved, and waits for the next minute.
    Remember,
    /// Ends: with the error at hand, or without one.
    End { failed: bool },
}

/// What the task does after an event: contacts are saved only where they changed, and remembered
/// only once they are saved. An error ends the task.
pub open spec fn action_after(event: SnapshotEvent) -> SnapshotAction {
    match event {
        SnapshotEvent::Stopped => SnapshotAction::End { failed: false },
        SnapshotEvent::Unreadable => SnapshotAction::End { failed: true },
        SnapshotEvent::Read { changed } => if changed {
            SnapshotAction::Save
        } else {
            SnapshotAction::Wait
        },
        SnapshotEvent::Saved { written } => if written {
            SnapshotAction::Remember
        } else {
            SnapshotAction::End { failed: true }
        },
    }
}

/// The next action of the task that saves the contacts of a node.
pub fn snapshot_step(event: SnapshotEvent) -> (action: SnapshotAction)
    ensures
        action == action_after(event),
{
    match event {
        SnapshotEvent::Stopped => SnapshotAction::End { failed: false },
        SnapshotEvent::Unreadable => SnapshotAction::End { failed: true },
        SnapshotEvent::Read { changed } => if changed {
            SnapshotAction::Save
        } else {
            SnapshotAction::Wait
        },
        SnapshotEvent::Saved { written } => if written {
            SnapshotAction::Remember
        } else {
            SnapshotAction::End { failed: true }
        },
    }
}

/// The contacts that are remembered, and those that the store was last given by the task.
pub struct SnapshotModel<A> {
    pub remembered: A,
    pub stored: A,
}

/// One minute of the task: the contacts are read, and where they are to be saved the store takes
/// them or not. Nothing where the task ends.
pub open spec fn after_minute<A>(
    model: SnapshotModel<A>,
    contacts: A,
    written: bool,
) -> Option<SnapshotModel<A>> {
    match action_after(SnapshotEvent::Read { changed: contacts != model.remembered }) {
        SnapshotAction::Save => match action_after(SnapshotEvent::Saved { written }) {
            SnapshotAction::Remember => Some(
                SnapshotModel { remembered: contacts, stored: contacts },
            ),
            _ => None,
        },
        _ => Some(model),
    }
}

/// A minute ends the task only where contacts that changed could not be saved. After any other the
/// contacts of the node are remembered, and what is remembered is what was stored; the store is
/// left alone where nothing changed.
pub proof fn lemma_minute<A>(model: SnapshotModel<A>, contacts: A, written: bool)
    requires
        model.remembered == model.stored,
    ensures
        after_minute(model, contacts, written) is None <==> contacts != model.remembered
            && !written,
        after_minute(model, contacts, written) matches Some(next) ==> next.remembered == contacts
            && next.stored == contacts,
        contacts == model.remembered ==> after_minute(model, contacts, written) == Some(model),
{
}

/// A stop ends the task well, and contacts that cannot be read or written end it as failed. Contacts
/// that changed are saved, remembered once they are, and else waited for.
pub proof fn lemma_actions()
    ensures
        action_after(SnapshotEvent::Stopped) == (SnapshotAction::End { failed: false }),
        action_after(SnapshotEvent::Unreadable) == (SnapshotAction::End { failed: true }),
        action_after(SnapshotEvent::Read { changed: true }) is Save,
        action_after(SnapshotEvent::Read { changed: false }) is Wait,
        action_after(SnapshotEvent::Saved { written: true }) is Remember,
        action_after(SnapshotEvent::Saved { written: false }) == (SnapshotAction::End {
            failed: true,
        }),
{
}

} // verus!
