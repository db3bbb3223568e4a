//! The fixed categories of a failed attempt.

use crate::metainfo::identity::text_equal;
use vstd::prelude::*;

verus! {

/// Why an attempt failed in the end. Labels outside the list all become `Other`, so that their
/// number stays bounded.
#[derive(Clone, Copy, Debug, PartialEq, Eq, Structural, PartialOrd, Ord)]
pub enum AttemptFailure {
    NoPeers,
    PeerIo,
    PeerTimeout,
    Protocol,
    HashMismatch,
    Unsupported,
    ReceiveLimit,
    Rejected,
    MetadataUnavailable,
    TaskTimeout,
    Other,
}

impl AttemptFailure {
    /// The stored label of a category.
    pub open spec fn text(self) -> Seq<char> {
        match self {
            AttemptFailure::NoPeers => "no_peers"@,
            AttemptFailure::PeerIo => "peer_io"@,
            AttemptFailure::PeerTimeout => "peer_timeout"@,
            AttemptFailure::Protocol => "protocol"@,
            AttemptFailure::HashMismatch => "hash_mismatch"@,
            AttemptFailure::Unsupported => "unsupported"@,
            AttemptFailure::ReceiveLimit => "receive_limit"@,
            AttemptFailure::Rejected => "rejected"@,
            AttemptFailure::MetadataUnavailable => "metadata_unavailable"@,
            AttemptFailure::TaskTimeout => "task_timeout"@,
            AttemptFailure::Other => "other"@,
        }
    }

    /// The category with this label, `Other` where there is none.
    pub fn from_label(label: &str) -> (category: AttemptFailure)
        ensures
            forall|named: AttemptFailure| label@ == #[trigger] named.text() ==> category == named,
            (forall|named: AttemptFailure| label@ != #[trigger] named.text()) ==> category is Other,
    {
        proof {
            assert forall|a: AttemptFailure, b: AttemptFailure|
                #[trigger] a.text() == #[trigger] b.text() implies a == b by {
                lemma_failure_labels(a, b);
            }
        }
        if text_equal(label, "no_peers") {
            assert(label@ == AttemptFailure::NoPeers.text());
            AttemptFailure::NoPeers
        } else if text_equal(label, "peer_io") {
            assert(label@ == AttemptFailure::PeerIo.text());
            AttemptFailure::PeerIo
        } else if text_equal(label, "peer_timeout") {
            assert(label@ == AttemptFailure::PeerTimeout.text());
            AttemptFailure::PeerTimeout
        } else if text_equal(label, "protocol") {
            assert(label@ == AttemptFailure::Protocol.text());
            AttemptFailure::Protocol
        } else if text_equal(label, "hash_mismatch") {
            assert(label@ == AttemptFailure::HashMismatch.text());
            AttemptFailure::HashMismatch
        } else if text_equal(label, "unsupported") {
            assert(label@ == AttemptFailure::Unsupported.text());
            AttemptFailure::Unsupported
        } else if text_equal(label, "receive_limit") {
            assert(label@ == AttemptFailure::ReceiveLimit.text());
            AttemptFailure::ReceiveLimit
        } else if text_equal(label, "rejected") {
            assert(label@ == AttemptFailure::Rejected.text());
            AttemptFailure::Rejected
        } else if text_equal(label, "metadata_unavailable") {
            assert(label@ == AttemptFailure::MetadataUnavailable.text());
            AttemptFailure::MetadataUnavailable
        } else if text_equal(label, "task_timeout") {
            assert(label@ == AttemptFailure::TaskTimeout.text());
            AttemptFailure::TaskTimeout
        } else {
            AttemptFailure::Other
        }
    }

    /// The stored label of the category.
    pub fn label(self) -> (label: &'static str)
        ensures
            label@ == self.text(),
    {
        match self {
            AttemptFailure::NoPeers => "no_peers",
            AttemptFailure::PeerIo => "peer_io",
            AttemptFailure::PeerTimeout => "peer_timeout",
            AttemptFailure::Protocol => "protocol",
            AttemptFailure::HashMismatch => "hash_mismatch",
            AttemptFailure::Unsupported => "unsupported",
            AttemptFailure::ReceiveLimit => "receive_limit",
            AttemptFailure::Rejected => "rejected",
            AttemptFailure::MetadataUnavailable => "metadata_unavailable",
            AttemptFailure::TaskTimeout => "task_timeout",
            AttemptFailure::Other => "other",
        }
    }
}

/// Two categories never share a label, so that a label is read back as the category it came from.
pub proof fn lemma_failure_labels(a: AttemptFailure, b: AttemptFailure)
    ensures
        a.text() == b.text() ==> a == b,
{
    reveal_strlit("no_peers");
    reveal_strlit("peer_io");
    reveal_strlit("peer_timeout");
    reveal_strlit("protocol");
    reveal_strlit("hash_mismatch");
    reveal_strlit("unsupported");
    reveal_strlit("receive_limit");
    reveal_strlit("rejected");
    reveal_strlit("metadata_unavailable");
    reveal_strlit("task_timeout");
    reveal_strlit("other");
    if a.text() == b.text() {
        assert(a.text().len() == b.text().len());
        assert(a.text()[0] == b.text()[0]);
        assert(a.text()[1] == b.text()[1]);
        assert(a.text()[2] == b.text()[2]);
    }
}

/// The names under which failures are stored.
pub proof fn lemma_failure_names()
    ensures
        AttemptFailure::NoPeers.text() == "no_peers"@,
        AttemptFailure::PeerIo.text() == "peer_io"@,
        AttemptFailure::PeerTimeout.text() == "peer_timeout"@,
        AttemptFailure::Protocol.text() == "protocol"@,
        AttemptFailure::HashMismatch.text() == "hash_mismatch"@,
        AttemptFailure::Unsupported.text() == "unsupported"@,
        AttemptFailure::ReceiveLimit.text() == "receive_limit"@,
        AttemptFailure::Rejected.text() == "rejected"@,
        AttemptFailure::MetadataUnavailable.text() == "metadata_unavailable"@,
        AttemptFailure::TaskTimeout.text() == "task_timeout"@,
        AttemptFailure::Other.text() == "other"@,
{
}

} // verus!
