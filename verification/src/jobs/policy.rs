//! The rotation of claim classes, and what an empty class lends its turn to.

use crate::jobs::model::ClaimClass;
use vstd::prelude::*;

verus! {

/// The number of turns in a rotation.
pub const ROTATION_TURNS: usize = 8;

/// The class that is preferred at a turn.
pub open spec fn preferred_at(turn: int) -> ClaimClass {
    if turn == 0 || turn == 3 || turn == 7 {
        ClaimClass::Hint
    } else if turn == 1 || turn == 5 {
        ClaimClass::Recent
    } else if turn == 2 || turn == 6 {
        ClaimClass::Retry
    } else {
        ClaimClass::History
    }
}

/// The order in which the other classes are asked when the preferred one is empty.
pub open spec fn order_from(preferred: ClaimClass) -> Seq<ClaimClass> {
    match preferred {
        ClaimClass::Hint => seq![
            ClaimClass::Hint,
            ClaimClass::Recent,
            ClaimClass::History,
            ClaimClass::Retry,
        ],
        ClaimClass::Recent => seq![
            ClaimClass::Recent,
            ClaimClass::Hint,
            ClaimClass::History,
            ClaimClass::Retry,
        ],
        ClaimClass::Retry => seq![
            ClaimClass::Retry,
            ClaimClass::Hint,
            ClaimClass::Recent,
            ClaimClass::History,
        ],
        ClaimClass::History => seq![
            ClaimClass::History,
            ClaimClass::Hint,
            ClaimClass::Recent,
            ClaimClass::Retry,
        ],
    }
}

/// The place in the rotation. It lives as long as the process and starts at the first turn.
#[derive(Debug)]
pub struct ClaimPolicy {
    turn: usize,
}

impl ClaimPolicy {
    /// The turn that is next.
    pub closed spec fn turn(self) -> int {
        self.turn as int
    }

    /// Whether the turn is one of the rotation.
    #[verifier::type_invariant]
    spec fn in_rotation(self) -> bool {
        self.turn < ROTATION_TURNS
    }

    /// A rotation at its first turn.
    pub fn new() -> (policy: ClaimPolicy)
        ensures
            policy.turn() == 0,
    {
        ClaimPolicy { turn: 0 }
    }

    /// The full order of this turn. Reading it does not end the turn.
    pub fn order(&self) -> (order: [ClaimClass; 4])
        ensures
            order@ == order_from(preferred_at(self.turn())),
    {
        proof {
            use_type_invariant(self);
        }
        let preferred = match self.turn {
            0 | 3 | 7 => ClaimClass::Hint,
            1 | 5 => ClaimClass::Recent,
            2 | 6 => ClaimClass::Retry,
            _ => ClaimClass::History,
        };
        order_for(preferred)
    }

    /// Ends the turn. It is ended by a claim alone, whatever class that was of.
    pub fn on_claimed(&mut self)
        ensures
            final(self).turn() == (old(self).turn() + 1) % ROTATION_TURNS as int,
    {
        proof {
            use_type_invariant(&*self);
        }
        self.turn = (self.turn + 1) % ROTATION_TURNS;
    }
}

/// The preferred class, then the others in the order in which they are borrowed from.
pub fn order_for(preferred: ClaimClass) -> (order: [ClaimClass; 4])
    ensures
        order@ == order_from(preferred),
{
    let borrow: [ClaimClass; 4] = [
        ClaimClass::Hint,
        ClaimClass::Recent,
        ClaimClass::History,
        ClaimClass::Retry,
    ];
    let mut order: [ClaimClass; 4] = [preferred, preferred, preferred, preferred];
    let mut next: usize = 1;
    for i in 0..4usize
        invariant
            borrow@ == seq![
                ClaimClass::Hint,
                ClaimClass::Recent,
                ClaimClass::History,
                ClaimClass::Retry,
            ],
            1 <= next <= i + 1,
            next <= 4,
            order@[0] == preferred,
            next == 1 + (if 0 < i && borrow@[0] != preferred { 1int } else { 0 }) + (if 1 < i
                && borrow@[1] != preferred { 1int } else { 0 }) + (if 2 < i && borrow@[2]
                != preferred { 1int } else { 0 }) + (if 3 < i && borrow@[3] != preferred { 1int } else { 0 }),
            order@.take(next as int) == order_from(preferred).take(next as int),
    {
        let class = borrow[i];
        if class != preferred {
            let ghost before = order@;
            order[next] = class;
            assert(order@.take(next + 1) =~= before.take(next as int).push(class));
            assert(order_from(preferred).take(next + 1) =~= order_from(preferred).take(
                next as int,
            ).push(class));
            next += 1;
        }
    }
    assert(order@.take(4) =~= order@);
    assert(order_from(preferred).take(4) =~= order_from(preferred));
    order
}

/// Every class is asked, and none twice, whatever is preferred.
pub proof fn lemma_order_complete(preferred: ClaimClass)
    ensures
        order_from(preferred).len() == 4,
        order_from(preferred)[0] == preferred,
        order_from(preferred).no_duplicates(),
        forall|class: ClaimClass| order_from(preferred).contains(class),
{
    let order = order_from(preferred);
    assert forall|class: ClaimClass| order.contains(class) by {
        let i: int = if order[0] == class {
            0
        } else if order[1] == class {
            1
        } else if order[2] == class {
            2
        } else {
            3
        };
        assert(order[i] == class);
    }
}

/// How often a class is preferred in a rotation.
pub open spec fn turns_of(class: ClaimClass, upto: nat) -> nat
    decreases upto,
{
    if upto == 0 {
        0
    } else {
        turns_of(class, (upto - 1) as nat) + if preferred_at(upto - 1) == class {
            1nat
        } else {
            0
        }
    }
}

/// In a rotation first claims have six turns of eight, and repeated ones two.
pub proof fn lemma_rotation_shares()
    ensures
        turns_of(ClaimClass::Hint, 8) == 3,
        turns_of(ClaimClass::Recent, 8) == 2,
        turns_of(ClaimClass::History, 8) == 1,
        turns_of(ClaimClass::Retry, 8) == 2,
{
    reveal_with_fuel(turns_of, 9);
}

/// Behind the preferred class the others keep their order: hints, then recent hashes, then history,
/// and repeated jobs last.
pub proof fn lemma_order_of_rest(preferred: ClaimClass)
    ensures
        ({
            let order = order_from(preferred);
            let place = |class: ClaimClass|
                match class {
                    ClaimClass::Hint => 0int,
                    ClaimClass::Recent => 1,
                    ClaimClass::History => 2,
                    ClaimClass::Retry => 3,
                };
            &&& order.len() == 4
            &&& order[0] == preferred
            &&& place(order[1]) < place(order[2]) < place(order[3])
            &&& order[1] != preferred && order[2] != preferred && order[3] != preferred
        }),
{
}

/// In a rotation no class but the history waits more than four turns, and the classes take their
/// turns one by one: hint, recent, retry, hint, history, recent, retry, hint.
pub proof fn lemma_rotation(turn: int)
    requires
        0 <= turn < 8,
    ensures
        preferred_at(turn) is Hint <==> turn % 4 == 3 || turn == 0,
        preferred_at(turn) is Recent <==> turn % 4 == 1,
        preferred_at(turn) is Retry <==> turn % 4 == 2,
        preferred_at(turn) is History <==> turn == 4,
        ROTATION_TURNS == 8,
{
}

} // verus!
