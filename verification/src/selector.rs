//! The order in which the peers of one attempt are tried.

use crate::endpoint::{contains_endpoint, Endpoint};
use vstd::prelude::*;

verus! {

/// How many announced addresses go before the lookup.
pub const PRIORITY_HINTS: usize = 2;

/// Where a candidate comes from.
#[derive(Clone, Copy, Debug, PartialEq, Eq, Structural, PartialOrd, Ord)]
pub enum Source {
    Announce,
    Dht,
}

/// A candidate that is not checked yet.
#[derive(Clone, Copy, Debug, PartialEq, Eq, Structural)]
pub struct PeerCandidate {
    pub address: Endpoint,
    pub source: Source,
}

/// The announced addresses that are left, and the addresses that were chosen. Each attempt has its
/// own.
#[derive(Debug)]
pub struct CandidateSelector {
    hints: Vec<Endpoint>,
    next: usize,
    selected: Vec<Endpoint>,
}

impl CandidateSelector {
    /// All announced addresses, in their order.
    pub closed spec fn hints(self) -> Seq<Endpoint> {
        self.hints@
    }

    /// How many announced addresses were handed out.
    pub closed spec fn taken(self) -> nat {
        self.next as nat
    }

    /// The addresses that were chosen, in their order.
    pub closed spec fn selected(self) -> Seq<Endpoint> {
        self.selected@
    }

    /// Whether the counts fit: no more is handed out than there is, and nothing is chosen twice.
    #[verifier::type_invariant]
    pub closed spec fn well_formed(self) -> bool {
        self.next <= self.hints@.len() && self.selected@.no_duplicates()
    }

    /// Whether the next candidate is an announced address, whatever the lookup has found.
    pub open spec fn hint_goes_first(self) -> bool {
        self.taken() < self.hints().len() && self.taken() < PRIORITY_HINTS
    }

    /// A selector for addresses that are allowed, in their order. Equal ones keep their places.
    pub fn new(eligible_hints: Vec<Endpoint>) -> (selector: CandidateSelector)
        ensures
            selector.hints() == eligible_hints@,
            selector.taken() == 0,
            selector.selected() == Seq::<Endpoint>::empty(),
    {
        CandidateSelector { hints: eligible_hints, next: 0, selected: Vec::new() }
    }

    /// Whether the lookup need not be asked for the next candidate.
    pub fn has_priority_hint(&self) -> (first: bool)
        ensures
            first == self.hint_goes_first(),
    {
        self.next < self.hints.len() && self.next < PRIORITY_HINTS
    }

    /// The next candidate: one of the first announced addresses, else what the lookup has found by
    /// now, else one of the other announced addresses. Nothing now does not mean nothing later, and
    /// a candidate that is handed out is not chosen yet.
    pub fn next_ready(&mut self, found: Option<Endpoint>) -> (candidate: Option<PeerCandidate>)
        requires
            old(self).hint_goes_first() ==> found is None,
        ensures
            final(self).hints() == old(self).hints(),
            final(self).selected() == old(self).selected(),
            if old(self).hint_goes_first() {
                &&& candidate == Some(
                    PeerCandidate {
                        address: old(self).hints()[old(self).taken() as int],
                        source: Source::Announce,
                    },
                )
                &&& final(self).taken() == old(self).taken() + 1
            } else {
                match found {
                    Some(address) => {
                        &&& candidate == Some(PeerCandidate { address, source: Source::Dht })
                        &&& final(self).taken() == old(self).taken()
                    },
                    None => if old(self).taken() < old(self).hints().len() {
                        &&& candidate == Some(
                            PeerCandidate {
                                address: old(self).hints()[old(self).taken() as int],
                                source: Source::Announce,
                            },
                        )
                        &&& final(self).taken() == old(self).taken() + 1
                    } else {
                        &&& candidate is None
                        &&& final(self).taken() == old(self).taken()
                    },
                }
            },
    {
        proof {
            use_type_invariant(&*self);
        }
        if let Some(address) = found {
            return Some(PeerCandidate { address, source: Source::Dht });
        }
        if self.next < self.hints.len() {
            let address = self.hints[self.next];
            self.next = self.next + 1;
            Some(PeerCandidate { address, source: Source::Announce })
        } else {
            None
        }
    }

    /// Chooses a candidate that was checked; says whether it was not chosen before. Addresses are
    /// the same only where all their parts are.
    pub fn select_once(&mut self, address: Endpoint) -> (fresh: bool)
        ensures
            fresh == !old(self).selected().contains(address),
            final(self).selected() == (if fresh {
                old(self).selected().push(address)
            } else {
                old(self).selected()
            }),
            final(self).hints() == old(self).hints(),
            final(self).taken() == old(self).taken(),
    {
        proof {
            use_type_invariant(&*self);
        }
        if contains_endpoint(&self.selected, address) {
            return false;
        }
        let mut selected: Vec<Endpoint> = Vec::new();
        std::mem::swap(&mut selected, &mut self.selected);
        selected.push(address);
        self.selected = selected;
        true
    }

    /// How many addresses were chosen.
    pub fn selected_count(&self) -> (count: usize)
        ensures
            count == self.selected().len(),
            self.selected().no_duplicates(),
    {
        proof {
            use_type_invariant(self);
        }
        self.selected.len()
    }
}

/// The first two announced addresses go before what the lookup finds, and no other does.
pub proof fn lemma_first_hints(selector: CandidateSelector)
    ensures
        selector.hint_goes_first() <==> selector.taken() < selector.hints().len()
            && selector.taken() < 2,
{
}

} // verus!
